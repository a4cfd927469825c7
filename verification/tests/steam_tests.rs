use vts_hotkeys::errors::AppError;
use vts_hotkeys::steam::{manifest_path, parse_manifest, SteamData};
use vts_hotkeys::text::str_to_chars;

fn chars(s: &str) -> Vec<char> {
    str_to_chars(s)
}

const DESCRIPTOR: &str = r#"
"libraryfolders"
{
    "1"
    {
        "path"  "/lib1"
        "label"  ""
        "apps"
        {
            "1325860"  "123456"
        }
    }
}
"#;

const MANIFEST: &str = r#"
"AppState"
{
    "appid"  "1325860"
    "name"  "Foo"
    "installdir"  "Bar"
    "InstalledDepots"
    {
        "1325861"
        {
            "manifest"  "887"
        }
    }
}
"#;

#[test]
fn parses_descriptor_into_one_library() {
    let libs = SteamData::find_libraries(&chars(DESCRIPTOR)).unwrap();
    assert_eq!(libs.len(), 1);
    assert_eq!(libs[0].directory, "/lib1");
    assert_eq!(libs[0].games.len(), 1);
    assert_eq!(libs[0].games[0].0, 1325860);
    assert_eq!(libs[0].games[0].1, "123456");
}

#[test]
fn non_numeric_app_id_fails_whole_parse() {
    let text = r#""libraryfolders" { "1" { "path" "/lib1" "apps" { "notanumber" "1" } } }"#;
    let r = SteamData::find_libraries(&chars(text));
    assert_eq!(r.unwrap_err(), AppError::ParseError);
}

#[test]
fn oversized_app_id_fails_whole_parse() {
    let text = r#""libraryfolders" { "1" { "path" "/lib1" "apps" { "4294967296" "1" } } }"#;
    let r = SteamData::find_libraries(&chars(text));
    assert_eq!(r.unwrap_err(), AppError::ParseError);
}

#[test]
fn missing_path_field_fails_parse() {
    let text = r#""libraryfolders" { "1" { "apps" { "10" "1" } } }"#;
    let r = SteamData::find_libraries(&chars(text));
    assert_eq!(r.unwrap_err(), AppError::ParseError);
}

#[test]
fn malformed_descriptor_fails_parse() {
    let r = SteamData::find_libraries(&chars("\"libraryfolders\" {"));
    assert_eq!(r.unwrap_err(), AppError::ParseError);
}

#[test]
fn escaped_characters_in_path() {
    let text = r#""libraryfolders" { "1" { "path" "C:\\lib \"one\"" "apps" { } } }"#;
    let libs = SteamData::find_libraries(&chars(text)).unwrap();
    assert_eq!(libs[0].directory, "C:\\lib \"one\"");
    assert_eq!(libs[0].games.len(), 0);
}

#[test]
fn update_libraries_requires_directory() {
    let mut d = SteamData::new(None, None);
    let r = d.update_libraries(&chars(DESCRIPTOR));
    assert_eq!(r.unwrap_err(), AppError::NotFound);
    assert!(d.libraries.is_none());
}

#[test]
fn update_libraries_records_parsed_set() {
    let mut d = SteamData::new(Some("/root-dir".to_string()), None);
    d.update_libraries(&chars(DESCRIPTOR)).unwrap();
    let libs = d.libraries.as_ref().unwrap();
    assert_eq!(libs.len(), 1);
    assert_eq!(libs[0].directory, "/lib1");
}

#[test]
fn candidate_order_is_fixed_and_first_existing_wins() {
    let cands = SteamData::candidate_paths("/home/u");
    assert_eq!(cands[0], "/home/u/.steam/steam");
    assert_eq!(cands[1], "/home/u/.local/share/Steam");
    assert_eq!(cands[2], "/home/u/.var/app/com.valvesoftware.Steam/data/Steam");
    let mut d = SteamData::new(None, None);
    d.update_directory(&cands, &vec![false, true, true]).unwrap();
    assert_eq!(d.directory.as_deref(), Some("/home/u/.local/share/Steam"));
}

#[test]
fn no_existing_candidate_is_not_found() {
    let cands = SteamData::candidate_paths("/home/u");
    let mut d = SteamData::new(None, None);
    let r = d.update_directory(&cands, &vec![false, false, false]);
    assert_eq!(r.unwrap_err(), AppError::NotFound);
    assert!(d.directory.is_none());
}

#[test]
fn descriptor_path_joins_storage_root() {
    let d = SteamData::new(Some("/root-dir".to_string()), None);
    assert_eq!(
        d.descriptor_path().unwrap(),
        "/root-dir/steamapps/libraryfolders.vdf"
    );
    assert!(SteamData::new(None, None).descriptor_path().is_none());
}

#[test]
fn manifest_parses_name_and_installdir() {
    let m = parse_manifest(&chars(MANIFEST)).unwrap();
    assert_eq!(m.name, "Foo");
    assert_eq!(m.installdir, "Bar");
}

#[test]
fn manifest_without_installdir_fails() {
    let r = parse_manifest(&chars(r#""AppState" { "name" "Foo" }"#));
    assert_eq!(r.unwrap_err(), AppError::ParseError);
}

#[test]
fn manifest_path_is_keyed_by_id() {
    assert_eq!(
        manifest_path("/lib1", 1325860),
        "/lib1/steamapps/appmanifest_1325860.acf"
    );
    assert_eq!(manifest_path("/x", 0), "/x/steamapps/appmanifest_0.acf");
}

#[test]
fn resolves_install_directory_for_owned_id() {
    let mut d = SteamData::new(Some("/root-dir".to_string()), None);
    d.update_libraries(&chars(DESCRIPTOR)).unwrap();
    assert_eq!(d.find_game_library(1325860), Some(0));
    let dir = d.get_game_directory(1325860, &chars(MANIFEST)).unwrap();
    assert_eq!(dir.as_deref(), Some("/lib1/steamapps/common/Bar"));
}

#[test]
fn unknown_id_resolves_to_none_not_an_error() {
    let mut d = SteamData::new(Some("/root-dir".to_string()), None);
    d.update_libraries(&chars(DESCRIPTOR)).unwrap();
    assert!(d.find_game_library(42).is_none());
    let dir = d.get_game_directory(42, &chars(MANIFEST)).unwrap();
    assert!(dir.is_none());
}

#[test]
fn malformed_manifest_for_owned_id_is_hard_failure() {
    let mut d = SteamData::new(Some("/root-dir".to_string()), None);
    d.update_libraries(&chars(DESCRIPTOR)).unwrap();
    let r = d.get_game_directory(1325860, &chars("not a manifest"));
    assert_eq!(r.unwrap_err(), AppError::ParseError);
}

#[test]
fn first_library_wins_for_duplicate_ids() {
    let text = r#""libraryfolders"
    {
        "0" { "path" "/a" "apps" { "7" "1" } }
        "1" { "path" "/b" "apps" { "7" "1" } }
    }"#;
    let mut d = SteamData::new(Some("/root-dir".to_string()), None);
    d.update_libraries(&chars(text)).unwrap();
    let manifest = r#""AppState" { "name" "N" "installdir" "G" }"#;
    let dir = d.get_game_directory(7, &chars(manifest)).unwrap();
    assert_eq!(dir.as_deref(), Some("/a/steamapps/common/G"));
}
