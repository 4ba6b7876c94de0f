use theme_catalog::paths::extension_of;
use theme_catalog::paths::file_stem_of;
use theme_catalog::paths::filter_theme_paths;
use theme_catalog::paths::is_theme_path;
use theme_catalog::settings::Settings;
use theme_catalog::theme::Color;
use theme_catalog::theme::FontStyle;
use theme_catalog::theme::ParseThemeError;
use theme_catalog::theme::Theme;
use theme_catalog::theme::parse_color;
use theme_catalog::theme::parse_font_style;

fn dict(entries: Vec<(&str, Settings)>) -> Settings {
    Settings::Dict(entries.into_iter().map(|(k, v)| (k.to_string(), v)).collect())
}

fn s(v: &str) -> Settings {
    Settings::Str(v.to_string())
}

fn minimal_theme(name: &str, scope_color: &str) -> Settings {
    dict(vec![
        ("name", s(name)),
        (
            "settings",
            Settings::Array(vec![
                dict(vec![(
                    "settings",
                    dict(vec![("foreground", s("#c0c5ce")), ("selection", s("#4f5b66"))]),
                )]),
                dict(vec![
                    ("scope", s("comment")),
                    (
                        "settings",
                        dict(vec![("foreground", s(scope_color)), ("fontStyle", s("italic"))]),
                    ),
                ]),
            ]),
        ),
    ])
}

#[test]
fn parse_settings_round_trips_the_declared_fields() {
    let theme = Theme::parse_settings(minimal_theme("My Theme", "#65737e")).unwrap();
    assert_eq!(theme.name.unwrap(), "My Theme");
    assert_eq!(
        theme.settings.selection.unwrap(),
        Color { r: 0x4f, g: 0x5b, b: 0x66, a: 0xff }
    );
    assert_eq!(theme.scopes.len(), 1);
    assert_eq!(theme.scopes[0].scope, "comment");
    assert_eq!(
        theme.scopes[0].style.foreground.unwrap(),
        Color { r: 0x65, g: 0x73, b: 0x7e, a: 0xff }
    );
    assert_eq!(
        theme.scopes[0].style.font_style.unwrap(),
        FontStyle { bold: false, italic: true, underline: false }
    );
}

#[test]
fn later_global_settings_replace_earlier_ones() {
    let tree = dict(vec![(
        "settings",
        Settings::Array(vec![
            dict(vec![("settings", dict(vec![("foreground", s("#111111"))]))]),
            dict(vec![("settings", dict(vec![("background", s("#222222"))]))]),
        ]),
    )]);
    let theme = Theme::parse_settings(tree).unwrap();
    assert_eq!(theme.settings.foreground, None);
    assert_eq!(
        theme.settings.background.unwrap(),
        Color { r: 0x22, g: 0x22, b: 0x22, a: 0xff }
    );
}

#[test]
fn top_level_must_be_a_dictionary() {
    let r = Theme::parse_settings(Settings::Str("nope".to_string()));
    assert_eq!(r.unwrap_err(), ParseThemeError::NotADictionary);
}

#[test]
fn settings_array_must_exist() {
    let r = Theme::parse_settings(dict(vec![("name", s("x"))]));
    assert_eq!(r.unwrap_err(), ParseThemeError::UndefinedSettings);
}

#[test]
fn settings_items_must_be_dictionaries() {
    let r = Theme::parse_settings(dict(vec![("settings", Settings::Array(vec![s("x")]))]));
    assert_eq!(r.unwrap_err(), ParseThemeError::ItemNotADictionary);
}

#[test]
fn scope_must_be_a_string() {
    let item = dict(vec![("scope", Settings::Bool(true)), ("settings", dict(vec![]))]);
    let r = Theme::parse_settings(dict(vec![("settings", Settings::Array(vec![item]))]));
    assert_eq!(r.unwrap_err(), ParseThemeError::ScopeIsNotString);
}

#[test]
fn scoped_item_must_carry_settings() {
    let item = dict(vec![("scope", s("comment"))]);
    let r = Theme::parse_settings(dict(vec![("settings", Settings::Array(vec![item]))]));
    assert_eq!(r.unwrap_err(), ParseThemeError::UndefinedScopeSettings);
}

#[test]
fn bad_color_is_reported() {
    let item = dict(vec![("settings", dict(vec![("foreground", s("#xyzxyz"))]))]);
    let r = Theme::parse_settings(dict(vec![("settings", Settings::Array(vec![item]))]));
    assert_eq!(r.unwrap_err(), ParseThemeError::IncorrectColor);
}

#[test]
fn bad_font_style_is_reported() {
    let item = dict(vec![
        ("scope", s("comment")),
        ("settings", dict(vec![("fontStyle", s("wavy"))])),
    ]);
    let r = Theme::parse_settings(dict(vec![("settings", Settings::Array(vec![item]))]));
    assert_eq!(r.unwrap_err(), ParseThemeError::IncorrectFontStyle);
}

#[test]
fn colors_decode_exactly() {
    assert_eq!(
        parse_color("#4f5b66").unwrap(),
        Color { r: 0x4f, g: 0x5b, b: 0x66, a: 0xff }
    );
    assert_eq!(
        parse_color("#4F5B6680").unwrap(),
        Color { r: 0x4f, g: 0x5b, b: 0x66, a: 0x80 }
    );
    assert_eq!(parse_color("4f5b66"), None);
    assert_eq!(parse_color("#4f5b6"), None);
    assert_eq!(parse_color("#4g5b66"), None);
}

#[test]
fn font_styles_combine_words() {
    assert_eq!(
        parse_font_style("bold italic").unwrap(),
        FontStyle { bold: true, italic: true, underline: false }
    );
    assert_eq!(
        parse_font_style("underline").unwrap(),
        FontStyle { bold: false, italic: false, underline: true }
    );
    assert_eq!(
        parse_font_style("").unwrap(),
        FontStyle { bold: false, italic: false, underline: false }
    );
    assert_eq!(parse_font_style("slanted"), None);
}

#[test]
fn extensions_and_stems_follow_the_file_name() {
    assert_eq!(
        extension_of("dir/base16-ocean.dark.tmTheme").unwrap(),
        "tmTheme"
    );
    assert_eq!(
        file_stem_of("dir/base16-ocean.dark.tmTheme").unwrap(),
        "base16-ocean.dark"
    );
    assert_eq!(extension_of("dir/noext"), None);
    assert_eq!(file_stem_of("dir/noext").unwrap(), "noext");
    assert_eq!(extension_of("dir/.hidden"), None);
    assert_eq!(file_stem_of("dir/.hidden").unwrap(), ".hidden");
    assert_eq!(file_stem_of("dir/"), None);
}

#[test]
fn theme_path_test_is_case_sensitive() {
    assert!(is_theme_path("a/x.tmTheme"));
    assert!(!is_theme_path("a/x.tmtheme"));
    assert!(!is_theme_path("a/x.txt"));
    assert!(!is_theme_path("a/x.tmTheme.bak"));

    let filtered = filter_theme_paths(vec![
        "a/x.tmTheme".to_string(),
        "a/y.tmtheme".to_string(),
        "b/z.tmTheme".to_string(),
    ]);
    assert_eq!(filtered, vec!["a/x.tmTheme".to_string(), "b/z.tmTheme".to_string()]);
}
