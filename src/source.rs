//! The raw sources of catalogs, and the loader that turns the bytes of a
//! localization file into one.

use vstd::prelude::*;
use vstd::utf8::{decode_utf8, valid_utf8};

verus! {

/// The text of a localization file.
pub struct LocalizationSource {
    pub ftl_string: String,
}

impl LocalizationSource {
    /// A source with this text.
    pub fn new(ftl_string: String) -> (r: LocalizationSource)
        ensures
            r.ftl_string@ == ftl_string@,
    {
        LocalizationSource { ftl_string }
    }
}

/// A parsed Fluent resource.
pub struct FluentSource {
    pub resource: fluent::FluentResource,
}

impl FluentSource {
    /// Wraps a parsed resource.
    pub fn new(resource: fluent::FluentResource) -> (r: FluentSource)
        ensures
            r.resource == resource,
    {
        FluentSource { resource }
    }
}

/// Why the bytes of a localization file could not be loaded.
#[derive(Debug, PartialEq, Eq, Clone, Copy, Structural)]
pub enum FtlLoadError {
    /// The bytes are not valid UTF-8.
    InvalidUtf8,
}

/// Relies on `String::from_utf8` of std, which succeeds exactly on valid UTF-8
/// and then holds the characters that the bytes encode.
#[verifier::external_body]
fn string_from_utf8(bytes: Vec<u8>) -> (r: Option<String>)
    ensures
        r is Some <==> valid_utf8(bytes@),
        r is Some ==> r->0@ == decode_utf8(bytes@),
{
    String::from_utf8(bytes).ok()
}

/// The loader of `.ftl` localization files.
pub struct FtlLoader;

impl FtlLoader {
    /// Turns the bytes of a file into a source; fails exactly when they are not
    /// valid UTF-8.
    pub fn load(&self, bytes: Vec<u8>) -> (r: Result<LocalizationSource, FtlLoadError>)
        ensures
            r is Ok <==> valid_utf8(bytes@),
            r is Ok ==> r->Ok_0.ftl_string@ == decode_utf8(bytes@),
            r is Err ==> r->Err_0 == FtlLoadError::InvalidUtf8,
    {
        match string_from_utf8(bytes) {
            Some(text) => Ok(LocalizationSource::new(text)),
            None => Err(FtlLoadError::InvalidUtf8),
        }
    }

    /// The file extensions that the loader takes.
    pub fn extensions(&self) -> (r: Vec<String>)
        ensures
            r@.len() == 1,
            r@[0]@ == "ftl"@,
    {
        let mut r: Vec<String> = Vec::new();
        r.push(String::from_str("ftl"));
        r
    }
}

} // verus!
