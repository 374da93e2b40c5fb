use locale_catalog::catalog::{Catalog, LocalizationArgs};
use locale_catalog::chain::{get_resolution_chain, update_resolution_chain, LocaleResolutionChain};
use locale_catalog::isolation::strip_isolation_marks;
use locale_catalog::language_id::{InvalidLanguageTag, LanguageId};
use locale_catalog::locale::{Locale, LocaleDefaultFallback, LocaleFallbackMap};
use locale_catalog::localization::{
    get_ftl_path, Localization, LocalizationError, SourceEvent, SourceHandle,
};
use locale_catalog::registry::{LocaleSettings, LocalizationRegistry};
use locale_catalog::source::{FluentSource, FtlLoadError, FtlLoader, LocalizationSource};

fn id(tag: &str) -> LanguageId {
    LanguageId::parse(tag).unwrap()
}

fn tags_of(ids: &[LanguageId]) -> Vec<String> {
    ids.iter().map(|l| l.to_string()).collect()
}

fn ready(store: &mut Localization, tag: &str, text: &str) {
    store.on_source_ready(&id(tag), &text.to_string());
}

#[test]
fn language_id_normalizes_tags() {
    assert_eq!(id("en_us").as_str(), "en-US");
    assert_eq!(id("EN-gb").to_string(), "en-GB");
    assert!(id("de") == id("DE"));
    assert!(id("de") != id("fr"));
}

#[test]
fn language_id_rejects_malformed_tags() {
    assert_eq!(LanguageId::parse("not a tag!!").unwrap_err(), InvalidLanguageTag);
    assert!(LanguageId::parse("en-US-x-").is_err());
}

#[test]
fn fallback_map_insert_returns_previous_list() {
    let mut map = LocaleFallbackMap::new();
    assert!(map.insert(id("en-US"), vec![id("en-GB")]).is_none());
    let previous = map.insert(id("en-US"), vec![id("de"), id("fr")]).unwrap();
    assert_eq!(tags_of(&previous), vec!["en-GB"]);
    assert_eq!(tags_of(map.get(&id("en-US")).unwrap()), vec!["de", "fr"]);
    assert!(map.get(&id("de")).is_none());
}

#[test]
fn fallback_map_add_fallback_appends_once() {
    let mut map = LocaleFallbackMap::new();
    map.add_fallback(id("en-US"), id("en-GB"));
    map.add_fallback(id("en-US"), id("de"));
    map.add_fallback(id("en-US"), id("en-GB"));
    assert_eq!(tags_of(map.get(&id("en-US")).unwrap()), vec!["en-GB", "de"]);
}

#[test]
fn chain_is_locale_then_fallbacks_then_default() {
    let mut map = LocaleFallbackMap::new();
    map.insert(id("en-US"), vec![id("en-GB"), id("en-AU")]);
    let chain = get_resolution_chain(
        &Locale::new(id("en-US")),
        &map,
        &LocaleDefaultFallback::new(Some(id("de"))),
    );
    assert_eq!(tags_of(&chain), vec!["en-US", "en-GB", "en-AU", "de"]);
}

#[test]
fn chain_without_entry_has_only_default_after_locale() {
    let mut map = LocaleFallbackMap::new();
    map.insert(id("fr"), vec![id("en-GB")]);
    let chain = get_resolution_chain(
        &Locale::new(id("en-US")),
        &map,
        &LocaleDefaultFallback::new(Some(id("de"))),
    );
    assert_eq!(tags_of(&chain), vec!["en-US", "de"]);
    let alone = get_resolution_chain(
        &Locale::new(id("en-US")),
        &map,
        &LocaleDefaultFallback::new(None),
    );
    assert_eq!(tags_of(&alone), vec!["en-US"]);
}

#[test]
fn chain_keeps_duplicates() {
    let mut map = LocaleFallbackMap::new();
    map.insert(id("de"), vec![id("de")]);
    let chain = get_resolution_chain(
        &Locale::new(id("de")),
        &map,
        &LocaleDefaultFallback::new(Some(id("de"))),
    );
    assert_eq!(tags_of(&chain), vec!["de", "de", "de"]);
}

#[test]
fn resolution_chain_updates_only_on_change() {
    let map = LocaleFallbackMap::new();
    let default = LocaleDefaultFallback::new(Some(id("de")));
    let mut chain = LocaleResolutionChain::new(&Locale::new(id("en-US")), &map, &default);
    update_resolution_chain(&mut chain, false, &Locale::new(id("fr")), &map, &default);
    assert_eq!(tags_of(chain.chain()), vec!["en-US", "de"]);
    update_resolution_chain(&mut chain, true, &Locale::new(id("fr")), &map, &default);
    assert_eq!(tags_of(chain.chain()), vec!["fr", "de"]);
}

#[test]
fn ftl_paths_join_folder_and_tag() {
    assert_eq!(get_ftl_path("strings/menu", &id("en-US")), "strings/menu/en-US.ftl");
    assert_eq!(get_ftl_path("strings/", &id("de")), "strings/de.ftl");
    assert_eq!(get_ftl_path("", &id("fr")), "fr.ftl");
}

#[test]
fn register_requests_every_locale_once() {
    let (store, requested) =
        Localization::register("strings".to_string(), vec![id("en-US"), id("de"), id("en-US")]);
    let paths: Vec<&str> = requested.iter().map(|h| h.path()).collect();
    assert_eq!(paths, vec!["strings/en-US.ftl", "strings/de.ftl"]);
    let mut known = tags_of(&store.known_locales());
    known.sort();
    assert_eq!(known, vec!["de", "en-US"]);
    assert_eq!(tags_of(store.resolution_chain()), vec!["en-US", "de", "en-US"]);
}

#[test]
fn reconcile_converges_to_new_chain() {
    let (mut store, _) = Localization::register("s".to_string(), vec![id("en-US"), id("de")]);
    ready(&mut store, "de", "greet = Hallo");
    ready(&mut store, "en-US", "greet = Hello");
    let requested = store.reconcile(vec![id("fr"), id("de"), id("it"), id("fr")]);
    let paths: Vec<&str> = requested.iter().map(|h| h.path()).collect();
    assert_eq!(paths, vec!["s/fr.ftl", "s/it.ftl"]);
    let mut known = tags_of(&store.known_locales());
    known.sort();
    assert_eq!(known, vec!["de", "fr", "it"]);
    assert!(store.lookup_bundle(&id("en-US")).is_none());
    assert!(store.handle(&id("en-US")).is_none());
    assert!(store.lookup_bundle(&id("de")).is_some());
    assert_eq!(store.handle(&id("de")).unwrap().path(), "s/de.ftl");
}

#[test]
fn first_success_skips_catalog_without_message() {
    let (mut store, _) = Localization::register("s".to_string(), vec![id("fr"), id("en-GB"), id("de")]);
    ready(&mut store, "en-GB", "other = Something else");
    ready(&mut store, "de", "m = Nachricht");
    assert_eq!(store.try_get_message("m").unwrap(), "Nachricht");
}

#[test]
fn first_success_skips_message_that_fails_to_format() {
    let (mut store, _) = Localization::register("s".to_string(), vec![id("en-GB"), id("de")]);
    ready(&mut store, "en-GB", "m = Uses { -missing-term }");
    ready(&mut store, "de", "m = Nachricht");
    assert_eq!(store.try_get_message("m").unwrap(), "Nachricht");
}

#[test]
fn malformed_update_keeps_stale_catalog() {
    let (mut store, _) = Localization::register("s".to_string(), vec![id("en-US")]);
    ready(&mut store, "en-US", "greet = Hello");
    assert_eq!(store.try_get_message("greet").unwrap(), "Hello");
    ready(&mut store, "en-US", "greet = = = {");
    assert_eq!(store.try_get_message("greet").unwrap(), "Hello");
    ready(&mut store, "en-US", "greet = Hi");
    assert_eq!(store.try_get_message("greet").unwrap(), "Hi");
}

#[test]
fn argument_is_substituted_without_isolation_marks() {
    let (mut store, _) = Localization::register("s".to_string(), vec![id("en-US")]);
    ready(&mut store, "en-US", "greet = Hello, { $name }!");
    let mut args = LocalizationArgs::new();
    args.add_arg("name".to_string(), "World".to_string());
    let text = store.try_format_message("greet", args).unwrap();
    assert_eq!(text, "Hello, World!");
    assert!(text.contains("World"));
    assert!(!text.contains('\u{2066}') && !text.contains('\u{2068}') && !text.contains('\u{2069}'));
}

#[test]
fn strip_removes_all_isolation_marks() {
    assert_eq!(strip_isolation_marks("a\u{2068}b\u{2069}c\u{2066}d\u{2067}e"), "abcde");
    assert_eq!(strip_isolation_marks(""), "");
    assert_eq!(strip_isolation_marks("plain"), "plain");
}

#[test]
fn lookup_errors_tell_missing_catalogs_from_missing_messages() {
    let (mut store, _) = Localization::register("s".to_string(), vec![id("en-US"), id("de")]);
    assert_eq!(store.try_get_message("greet"), Err(LocalizationError::NoCatalogLoaded));
    ready(&mut store, "de", "other = x");
    assert_eq!(store.try_get_message("greet"), Err(LocalizationError::NotFound));
}

#[test]
fn removed_source_drops_catalog() {
    let (mut store, _) = Localization::register("s".to_string(), vec![id("de")]);
    ready(&mut store, "de", "greet = Hallo");
    store.on_source_removed(&id("de"));
    assert_eq!(store.try_get_message("greet"), Err(LocalizationError::NoCatalogLoaded));
    assert_eq!(tags_of(&store.known_locales()), vec!["de"]);
}

#[test]
fn source_for_unknown_locale_is_ignored() {
    let (mut store, _) = Localization::register("s".to_string(), vec![id("de")]);
    ready(&mut store, "fr", "greet = Bonjour");
    assert!(store.lookup_bundle(&id("fr")).is_none());
}

#[test]
fn events_follow_handles() {
    let (mut store, requested) = Localization::register("s".to_string(), vec![id("en-US"), id("de")]);
    store.update_on_asset_change(&SourceEvent::Created {
        handle: requested[1].clone(),
        text: "greet = Hallo".to_string(),
    });
    assert_eq!(store.try_get_message("greet").unwrap(), "Hallo");
    store.update_on_asset_change(&SourceEvent::Modified {
        handle: requested[0].clone(),
        text: "greet = Hello".to_string(),
    });
    assert_eq!(store.try_get_message("greet").unwrap(), "Hello");
    store.update_on_asset_change(&SourceEvent::Created {
        handle: SourceHandle::new("s/fr.ftl".to_string()),
        text: "greet = Bonjour".to_string(),
    });
    assert_eq!(store.try_get_message("greet").unwrap(), "Hello");
    store.update_on_asset_change(&SourceEvent::Removed { handle: requested[0].clone() });
    assert_eq!(store.try_get_message("greet").unwrap(), "Hallo");
    assert_eq!(store.locale_of_handle(&requested[1]).unwrap().as_str(), "de");
}

#[test]
fn catalog_build_fails_on_malformed_text() {
    assert!(Catalog::build(&id("de"), &"x = = {".to_string()).is_none());
    let catalog = Catalog::build(&id("de"), &"x = y".to_string()).unwrap();
    assert_eq!(catalog.format("x", None).unwrap(), "y");
    assert!(catalog.format("z", None).is_none());
}

fn fallback_settings() -> LocaleSettings {
    let mut map = LocaleFallbackMap::new();
    map.add_fallback(id("en-US"), id("en-GB"));
    LocaleSettings::new(
        Locale::new(id("en-US")),
        map,
        LocaleDefaultFallback::new(Some(id("de"))),
    )
}

#[test]
fn registering_twice_changes_nothing() {
    let settings = fallback_settings();
    let mut registry = LocalizationRegistry::new();
    let (first, requested) = registry.register_domain("strings/menu".to_string(), &settings);
    assert_eq!(requested.len(), 3);
    let (second, again) = registry.register_domain("strings/menu".to_string(), &settings);
    assert_eq!(first, second);
    assert!(again.is_empty());
    assert_eq!(registry.len(), 1);
    let (other, _) = registry.register_domain("strings/hud".to_string(), &settings);
    assert_eq!(other, 1);
    assert_eq!(registry.len(), 2);
}

#[test]
fn end_to_end_fallback_to_default_locale() {
    let mut settings = fallback_settings();
    let mut registry = LocalizationRegistry::new();
    let (domain, requested) = registry.register_domain("strings".to_string(), &settings);
    let paths: Vec<&str> = requested.iter().map(|h| h.path()).collect();
    assert_eq!(paths, vec!["strings/en-US.ftl", "strings/en-GB.ftl", "strings/de.ftl"]);
    let events = vec![SourceEvent::Created {
        handle: requested[2].clone(),
        text: "greet = Guten Tag".to_string(),
    }];
    let more = registry.step(&mut settings, &events);
    assert!(more.is_empty());
    let via_chain = registry.resolve(domain, "greet", None).unwrap();
    assert_eq!(via_chain, "Guten Tag");

    settings.set_locale(id("de"));
    assert!(settings.is_changed());
    let more = registry.step(&mut settings, &Vec::new());
    assert!(more.is_empty());
    assert!(!settings.is_changed());
    let direct = registry.resolve(domain, "greet", None).unwrap();
    assert_eq!(direct, via_chain);
    let known = tags_of(&registry.domain(domain).unwrap().known_locales());
    assert_eq!(known, vec!["de"]);
}

#[test]
fn step_requests_sources_for_new_locales() {
    let mut settings = fallback_settings();
    let mut registry = LocalizationRegistry::new();
    registry.register_domain("a".to_string(), &settings);
    registry.register_domain("b".to_string(), &settings);
    settings.set_default_fallback(Some(id("fr")));
    let requested = registry.step(&mut settings, &Vec::new());
    let paths: Vec<&str> = requested.iter().map(|h| h.path()).collect();
    assert_eq!(paths, vec!["a/fr.ftl", "b/fr.ftl"]);
    assert!(registry.step(&mut settings, &Vec::new()).is_empty());
}

#[test]
fn unknown_domain_is_an_error() {
    let registry = LocalizationRegistry::new();
    assert_eq!(registry.resolve(3, "greet", None), Err(LocalizationError::UnknownDomain));
    assert!(registry.domain(0).is_none());
}

#[test]
fn loader_decodes_utf8() {
    let loader = FtlLoader;
    let source = loader.load("greet = Grüß dich".as_bytes().to_vec()).unwrap();
    assert_eq!(source.ftl_string, "greet = Grüß dich");
    assert_eq!(loader.load(vec![0xff, 0xfe]).err(), Some(FtlLoadError::InvalidUtf8));
    assert_eq!(loader.extensions(), vec!["ftl".to_string()]);
}

#[test]
fn sources_hold_their_contents() {
    let source = LocalizationSource::new("a = b".to_string());
    assert_eq!(source.ftl_string, "a = b");
    let resource = fluent::FluentResource::try_new("a = b".to_string()).unwrap();
    let wrapped = FluentSource::new(resource);
    assert_eq!(wrapped.resource.source(), "a = b");
}

#[test]
fn empty_chain_requests_nothing_and_finds_nothing() {
    let (store, requested) = Localization::register("s".to_string(), Vec::new());
    assert!(requested.is_empty());
    assert!(store.known_locales().is_empty());
    assert_eq!(store.try_get_message("greet"), Err(LocalizationError::NoCatalogLoaded));
}

#[test]
fn new_store_has_chain_but_no_sources() {
    let store = Localization::new("s".to_string(), vec![id("de")]);
    assert_eq!(store.folder(), "s");
    assert_eq!(tags_of(store.resolution_chain()), vec!["de"]);
    assert!(store.known_locales().is_empty());
}

#[test]
fn settings_setters_raise_change_flags() {
    let mut settings = fallback_settings();
    assert!(!settings.is_changed());
    settings.set_fallbacks(id("de"), vec![id("fr")]);
    assert!(settings.is_changed());
    settings.add_fallback(id("de"), id("it"));
    assert_eq!(tags_of(settings.fallback_map().get(&id("de")).unwrap()), vec!["fr", "it"]);
    assert_eq!(settings.locale().get().as_str(), "en-US");
    assert_eq!(settings.default_fallback().get().unwrap().as_str(), "de");
    assert_eq!(tags_of(&settings.chain()), vec!["en-US", "en-GB", "de"]);
}
