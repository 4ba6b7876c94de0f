use theme_catalog::theme::Color;
use theme_catalog::theme_set::ThemeSet;
use theme_catalog::theme_set::ThemeSetError;

const OCEAN_DARK: &str = r#"<?xml version="1.0" encoding="UTF-8"?>
<plist version="1.0">
<dict>
    <key>name</key>
    <string>Base16 Ocean Dark</string>
    <key>settings</key>
    <array>
        <dict>
            <key>settings</key>
            <dict>
                <key>foreground</key>
                <string>#c0c5ce</string>
                <key>background</key>
                <string>#2b303b</string>
                <key>selection</key>
                <string>#4f5b66</string>
            </dict>
        </dict>
        <dict>
            <key>name</key>
            <string>Text</string>
            <key>scope</key>
            <string>variable.parameter.function</string>
            <key>settings</key>
            <dict>
                <key>foreground</key>
                <string>#c0c5ce</string>
            </dict>
        </dict>
        <dict>
            <key>name</key>
            <string>Comment</string>
            <key>scope</key>
            <string>comment</string>
            <key>settings</key>
            <dict>
                <key>foreground</key>
                <string>#65737e</string>
                <key>fontStyle</key>
                <string>italic</string>
            </dict>
        </dict>
    </array>
</dict>
</plist>
"#;

const PLAIN_THEME: &str = r#"<?xml version="1.0" encoding="UTF-8"?>
<plist version="1.0">
<dict>
    <key>name</key>
    <string>Plain</string>
    <key>settings</key>
    <array>
        <dict>
            <key>settings</key>
            <dict>
                <key>background</key>
                <string>#ffffff</string>
            </dict>
        </dict>
    </array>
</dict>
</plist>
"#;

const NOT_A_THEME: &str = r#"<?xml version="1.0" encoding="UTF-8"?>
<plist version="1.0">
<dict>
    <key>name</key>
    <string>No Settings Here</string>
</dict>
</plist>
"#;

fn keys(themes: &ThemeSet) -> Vec<String> {
    let mut v: Vec<String> = themes.themes.iter().map(|p| p.0.clone()).collect();
    v.sort();
    v
}

#[test]
fn can_parse_common_themes() {
    let dir = tempfile::tempdir().unwrap();
    let testdata = dir.path().join("testdata");
    fs_err::create_dir_all(testdata.join("spacegray")).unwrap();
    fs_err::write(testdata.join("spacegray/base16-ocean.dark.tmTheme"), OCEAN_DARK).unwrap();

    let themes = ThemeSet::load_from_folder(testdata.to_str().unwrap()).unwrap();
    let all_themes: Vec<&str> = themes.themes.iter().map(|p| p.0.as_str()).collect();
    println!("{:?}", all_themes);

    let theme_path = testdata.join("spacegray/base16-ocean.dark.tmTheme");
    let theme = ThemeSet::get_theme(theme_path.to_str().unwrap()).unwrap();
    assert_eq!(theme.name.unwrap(), "Base16 Ocean Dark");
    assert_eq!(
        theme.settings.selection.unwrap(),
        Color {
            r: 0x4f,
            g: 0x5b,
            b: 0x66,
            a: 0xff,
        }
    );
    assert_eq!(
        theme.scopes[0].style.foreground.unwrap(),
        Color {
            r: 0xc0,
            g: 0xc5,
            b: 0xce,
            a: 0xFF,
        }
    );
}

#[test]
fn catalog_keys_are_the_stems() {
    let dir = tempfile::tempdir().unwrap();
    fs_err::create_dir_all(dir.path().join("sub")).unwrap();
    fs_err::write(dir.path().join("alpha.tmTheme"), OCEAN_DARK).unwrap();
    fs_err::write(dir.path().join("sub/beta.dark.tmTheme"), PLAIN_THEME).unwrap();
    fs_err::write(dir.path().join("notes.txt"), "not a theme").unwrap();

    let themes = ThemeSet::load_from_folder(dir.path().to_str().unwrap()).unwrap();
    assert_eq!(keys(&themes), vec!["alpha".to_string(), "beta.dark".to_string()]);
}

#[test]
fn discovery_is_extension_exact() {
    let dir = tempfile::tempdir().unwrap();
    fs_err::write(dir.path().join("x.tmTheme"), PLAIN_THEME).unwrap();
    fs_err::write(dir.path().join("y.tmtheme"), PLAIN_THEME).unwrap();
    fs_err::write(dir.path().join("z.txt"), PLAIN_THEME).unwrap();

    let paths = ThemeSet::discover_theme_paths(dir.path().to_str().unwrap()).unwrap();
    assert_eq!(paths.len(), 1);
    assert!(paths[0].ends_with("x.tmTheme"));

    let themes = ThemeSet::load_from_folder(dir.path().to_str().unwrap()).unwrap();
    assert_eq!(keys(&themes), vec!["x".to_string()]);
}

#[test]
fn discovery_descends_into_subdirectories() {
    let dir = tempfile::tempdir().unwrap();
    fs_err::create_dir_all(dir.path().join("a/b/c")).unwrap();
    fs_err::write(dir.path().join("a/b/c/deep.tmTheme"), PLAIN_THEME).unwrap();

    let paths = ThemeSet::discover_theme_paths(dir.path().to_str().unwrap()).unwrap();
    assert_eq!(paths.len(), 1);
    assert!(paths[0].ends_with("deep.tmTheme"));

    let themes = ThemeSet::load_from_folder(dir.path().to_str().unwrap()).unwrap();
    assert_eq!(keys(&themes), vec!["deep".to_string()]);
}

#[test]
fn one_malformed_document_fails_the_whole_load() {
    let dir = tempfile::tempdir().unwrap();
    fs_err::write(dir.path().join("good.tmTheme"), OCEAN_DARK).unwrap();
    fs_err::write(dir.path().join("bad.tmTheme"), "this is no plist at all").unwrap();

    let r = ThemeSet::load_from_folder(dir.path().to_str().unwrap());
    assert!(matches!(r, Err(ThemeSetError::ReadSettings(_))));
}

#[test]
fn one_semantically_bad_document_fails_the_whole_load() {
    let dir = tempfile::tempdir().unwrap();
    fs_err::write(dir.path().join("good.tmTheme"), OCEAN_DARK).unwrap();
    fs_err::write(dir.path().join("empty.tmTheme"), NOT_A_THEME).unwrap();

    let r = ThemeSet::load_from_folder(dir.path().to_str().unwrap());
    assert!(matches!(r, Err(ThemeSetError::ParseTheme(_))));
}

#[test]
fn duplicate_stems_keep_one_entry() {
    let dir = tempfile::tempdir().unwrap();
    fs_err::create_dir_all(dir.path().join("one")).unwrap();
    fs_err::create_dir_all(dir.path().join("two")).unwrap();
    fs_err::write(dir.path().join("one/same.tmTheme"), OCEAN_DARK).unwrap();
    fs_err::write(dir.path().join("two/same.tmTheme"), PLAIN_THEME).unwrap();

    let themes = ThemeSet::load_from_folder(dir.path().to_str().unwrap()).unwrap();
    assert_eq!(keys(&themes), vec!["same".to_string()]);
}

#[test]
fn later_path_with_same_stem_wins() {
    let dir = tempfile::tempdir().unwrap();
    fs_err::create_dir_all(dir.path().join("one")).unwrap();
    fs_err::create_dir_all(dir.path().join("two")).unwrap();
    fs_err::write(dir.path().join("one/same.tmTheme"), OCEAN_DARK).unwrap();
    fs_err::write(dir.path().join("two/same.tmTheme"), PLAIN_THEME).unwrap();

    let paths = vec![
        dir.path().join("one/same.tmTheme").to_str().unwrap().to_string(),
        dir.path().join("two/same.tmTheme").to_str().unwrap().to_string(),
    ];
    let themes = ThemeSet::load_from_paths(&paths).unwrap();
    assert_eq!(themes.themes.len(), 1);
    assert_eq!(themes.themes[0].0, "same");
    assert_eq!(themes.themes[0].1.name.as_deref(), Some("Plain"));

    let reversed = vec![paths[1].clone(), paths[0].clone()];
    let themes = ThemeSet::load_from_paths(&reversed).unwrap();
    assert_eq!(themes.themes.len(), 1);
    assert_eq!(themes.themes[0].1.name.as_deref(), Some("Base16 Ocean Dark"));
}

#[test]
fn no_paths_give_an_empty_catalog() {
    let themes = ThemeSet::load_from_paths(&Vec::new()).unwrap();
    assert!(themes.themes.is_empty());
}

#[test]
fn missing_file_is_a_file_access_error() {
    let r = ThemeSet::get_theme("no/such/place.tmTheme");
    assert!(matches!(r, Err(ThemeSetError::Io(_))));
}

#[test]
fn missing_folder_is_a_traversal_error() {
    let r = ThemeSet::load_from_folder("no/such/folder/anywhere");
    assert!(matches!(r, Err(ThemeSetError::WalkDir(_))));
}

#[test]
fn read_plist_reads_the_document() {
    let dir = tempfile::tempdir().unwrap();
    let path = dir.path().join("plain.tmTheme");
    fs_err::write(&path, PLAIN_THEME).unwrap();

    let settings = ThemeSet::read_plist(path.to_str().unwrap()).unwrap();
    match settings {
        theme_catalog::settings::Settings::Dict(entries) => {
            assert!(entries.iter().any(|p| p.0 == "name"));
            assert!(entries.iter().any(|p| p.0 == "settings"));
        },
        _ => panic!("top level of a theme document should be a dictionary"),
    }
}
