use vts_hotkeys::catalog::{
    build_catalog, catalog_lookup, is_config_file_name, parse_catalog_entry, AssetDirListing,
    AssetFile,
};
use vts_hotkeys::errors::AppError;
use vts_hotkeys::text::str_to_chars;

fn file(name: &str, content: &str) -> AssetFile {
    AssetFile { file_name: name.to_string(), content: str_to_chars(content) }
}

fn dir(name: &str, files: Vec<AssetFile>) -> AssetDirListing {
    AssetDirListing { dir_name: name.to_string(), files }
}

const CFG: &str = r#"
{
    "Version": 1,
    "Name": "model one",
    "ModelID": "abc",
    "FileReferences": { "Icon": "icon.png" },
    "ArtMeshes": [1, 2.5, true, null],
    "Hotkeys": [
        { "HotkeyID": "h1", "Name": "Wave", "File": "f1", "Position": { "X": -0.5 } }
    ]
}
"#;

#[test]
fn classifies_by_second_name_component() {
    assert!(is_config_file_name("cfg.vtube.json"));
    assert!(is_config_file_name("a.vtube"));
    assert!(!is_config_file_name("model.json"));
    assert!(!is_config_file_name("vtube"));
    assert!(!is_config_file_name("a.json.vtube"));
    assert!(!is_config_file_name(""));
}

#[test]
fn parses_entry_with_model_id_and_hotkeys() {
    let e = parse_catalog_entry(&str_to_chars(CFG)).unwrap();
    assert_eq!(e.asset_id, "abc");
    assert_eq!(e.hotkeys.len(), 1);
    assert_eq!(e.hotkeys[0].hotkey_id, "h1");
    assert_eq!(e.hotkeys[0].name, "Wave");
    assert_eq!(e.hotkeys[0].trigger_file, "f1");
}

#[test]
fn hotkey_order_is_preserved() {
    let text = r#"{ "ModelID": "m", "Hotkeys": [
        { "HotkeyID": "b", "Name": "B", "File": "2" },
        { "HotkeyID": "a", "Name": "A", "File": "1" },
        { "HotkeyID": "c", "Name": "C", "File": "3" }
    ] }"#;
    let e = parse_catalog_entry(&str_to_chars(text)).unwrap();
    let ids: Vec<&str> = e.hotkeys.iter().map(|h| h.hotkey_id.as_str()).collect();
    assert_eq!(ids, vec!["b", "a", "c"]);
}

#[test]
fn entry_without_model_id_fails() {
    let text = r#"{ "Hotkeys": [] }"#;
    let r = parse_catalog_entry(&str_to_chars(text));
    assert_eq!(r.unwrap_err(), AppError::ParseError);
}

#[test]
fn entry_with_empty_hotkey_list_is_kept() {
    let text = r#"{ "ModelID": "m", "Hotkeys": [] }"#;
    let e = parse_catalog_entry(&str_to_chars(text)).unwrap();
    assert_eq!(e.asset_id, "m");
    assert_eq!(e.hotkeys.len(), 0);
}

#[test]
fn hotkey_missing_required_field_fails() {
    let text = r#"{ "ModelID": "m", "Hotkeys": [ { "HotkeyID": "h", "Name": "N" } ] }"#;
    let r = parse_catalog_entry(&str_to_chars(text));
    assert_eq!(r.unwrap_err(), AppError::ParseError);
}

#[test]
fn builds_one_entry_per_directory_with_config() {
    let dirs = vec![
        dir("M1", vec![file("readme.txt", "hello"), file("cfg.vtube.json", CFG)]),
        dir("M2", vec![file("texture.png", "binaryish")]),
    ];
    let catalog = build_catalog(&dirs).unwrap();
    assert_eq!(catalog.len(), 1);
    assert_eq!(catalog[0].0, "M1");
    assert_eq!(catalog[0].1.asset_id, "abc");
    assert_eq!(catalog[0].1.hotkeys[0].name, "Wave");
}

#[test]
fn last_config_file_scanned_wins() {
    let other = r#"{ "ModelID": "second", "Hotkeys": [] }"#;
    let dirs = vec![dir("M1", vec![file("a.vtube.json", CFG), file("b.vtube.json", other)])];
    let catalog = build_catalog(&dirs).unwrap();
    assert_eq!(catalog.len(), 1);
    assert_eq!(catalog[0].1.asset_id, "second");
}

#[test]
fn any_malformed_config_aborts_whole_build() {
    let dirs = vec![
        dir("M1", vec![file("cfg.vtube.json", CFG)]),
        dir("M2", vec![file("bad.vtube.json", "{ not json")]),
    ];
    let r = build_catalog(&dirs);
    assert_eq!(r.unwrap_err(), AppError::ParseError);
}

#[test]
fn lookup_finds_entry_by_directory_name() {
    let dirs = vec![dir("M1", vec![file("cfg.vtube.json", CFG)])];
    let catalog = build_catalog(&dirs).unwrap();
    assert_eq!(catalog_lookup(&catalog, "M1").unwrap().asset_id, "abc");
    assert!(catalog_lookup(&catalog, "M2").is_none());
}
