use locale_catalog::asset::{update_asset_on_locale_changes, LocalizedAsset};
use locale_catalog::catalog::LocalizationArgs;
use locale_catalog::chain::LocaleResolutionChain;
use locale_catalog::language_id::LanguageId;
use locale_catalog::locale::{Locale, LocaleDefaultFallback, LocaleFallbackMap};
use locale_catalog::localization::{Localization, LocalizationError};
use locale_catalog::reader::{LocalizedAssetReader, ReadStep};
use locale_catalog::text::LocalizedText;

fn id(tag: &str) -> LanguageId {
    LanguageId::parse(tag).unwrap()
}

#[test]
fn asset_path_is_folder_tag_and_extension() {
    let asset = LocalizedAsset::new("images/flags".to_string(), "png".to_string());
    assert_eq!(asset.get_asset_path(&id("de")), "images/flags/de.png");
}

#[test]
fn asset_keeps_handles_of_chain_only() {
    let mut asset = LocalizedAsset::new("img".to_string(), "png".to_string());
    let first = asset.update_on_locale_change(&vec![id("en-US"), id("de")]);
    let paths: Vec<&str> = first.iter().map(|h| h.path()).collect();
    assert_eq!(paths, vec!["img/en-US.png", "img/de.png"]);
    let second = asset.update_on_locale_change(&vec![id("de"), id("fr")]);
    let paths: Vec<&str> = second.iter().map(|h| h.path()).collect();
    assert_eq!(paths, vec!["img/fr.png"]);
    assert!(asset.handle(&id("en-US")).is_none());
    assert_eq!(asset.handle(&id("de")).unwrap().path(), "img/de.png");
}

#[test]
fn assets_update_only_when_chain_changed() {
    let chain = LocaleResolutionChain::new(
        &Locale::new(id("fr")),
        &LocaleFallbackMap::new(),
        &LocaleDefaultFallback::new(Some(id("en-US"))),
    );
    let mut assets = vec![
        LocalizedAsset::new("a".to_string(), "png".to_string()),
        LocalizedAsset::new("b".to_string(), "ogg".to_string()),
    ];
    assert!(update_asset_on_locale_changes(&mut assets, &chain, false).is_empty());
    let requested = update_asset_on_locale_changes(&mut assets, &chain, true);
    let paths: Vec<&str> = requested.iter().map(|h| h.path()).collect();
    assert_eq!(paths, vec!["a/fr.png", "a/en-US.png", "b/fr.ogg", "b/en-US.ogg"]);
    assert!(assets[1].handle(&id("fr")).is_some());
}

#[test]
fn localized_path_puts_locale_file_under_stem() {
    assert_eq!(
        LocalizedAssetReader::localized_path(&id("en-US"), "images/logo.png").unwrap(),
        "images/logo/en-US.png"
    );
    assert_eq!(LocalizedAssetReader::localized_path(&id("de"), "logo.png").unwrap(), "logo/de.png");
    assert!(LocalizedAssetReader::localized_path(&id("de"), "images/logo").is_none());
}

#[test]
fn localized_path_chain_follows_chain() {
    let reader = LocalizedAssetReader::new(vec![id("en-GB"), id("de")]);
    assert_eq!(
        reader.localized_path_chain("ui/menu.ftl").unwrap(),
        vec!["ui/menu/en-GB.ftl".to_string(), "ui/menu/de.ftl".to_string()]
    );
    assert!(reader.localized_path_chain("ui/menu").is_none());
}

#[test]
fn read_steps_skip_missing_files() {
    let reader = LocalizedAssetReader::new(vec![id("en-GB"), id("de")]);
    assert_eq!(reader.first_read_step(), ReadStep::Read(0));
    assert_eq!(reader.next_read_step(0, true), ReadStep::Read(1));
    assert_eq!(reader.next_read_step(1, false), ReadStep::Done(1));
    assert_eq!(reader.next_read_step(1, true), ReadStep::NotFound);
    assert_eq!(LocalizedAssetReader::new(Vec::new()).first_read_step(), ReadStep::NotFound);
}

#[test]
fn localized_text_refreshes_from_store() {
    let (mut store, _) = Localization::register("s".to_string(), vec![id("en-US")]);
    let mut args = LocalizationArgs::new();
    args.add_arg("count".to_string(), "3".to_string());
    let text = LocalizedText::new_with_variables("items".to_string(), args);
    assert_eq!(text.message_id(), "items");
    assert_eq!(text.refresh(&store), Err(LocalizationError::NoCatalogLoaded));
    store.on_source_ready(&id("en-US"), &"items = { $count } items".to_string());
    assert_eq!(text.refresh(&store).unwrap(), "3 items");
    let plain = LocalizedText::new("missing".to_string());
    assert_eq!(plain.refresh(&store), Err(LocalizationError::NotFound));
}
