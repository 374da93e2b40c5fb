//! Locale resolution and message lookup over Fluent catalogs.

pub mod language_id;
pub mod locale_map;
pub mod locale;
pub mod chain;
pub mod catalog;
pub mod isolation;
pub mod localization;
pub mod registry;
pub mod source;
pub mod text;
pub mod asset;
pub mod reader;
