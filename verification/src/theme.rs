//! The validated theme model and the semantic validator that turns a
//! generic settings tree into a `Theme`.
//!
//! A theme document is a dictionary with an optional `name` and `author`
//! and a `settings` array. Each array element is a dictionary holding a
//! `settings` dictionary; an element with a `scope` string contributes one
//! scoped style rule, an element without one contributes the theme-wide
//! default settings (a later such element replaces an earlier one whole).
//! Colors are written `#rrggbb` or `#rrggbbaa` in hex; font styles are
//! space-separated words among `bold`, `italic` and `underline`.

use vstd::prelude::*;

use crate::settings::Settings;
use crate::settings::lookup;
use crate::settings::spec_lookup;

verus! {

/// An RGBA color; `a` is `0xff` when the document gives only six digits.
#[derive(Clone, Copy, Debug, PartialEq, Eq)]
pub struct Color {
    pub r: u8,
    pub g: u8,
    pub b: u8,
    pub a: u8,
}

/// Font-style flags of one style rule.
#[derive(Clone, Copy, Debug, PartialEq, Eq)]
pub struct FontStyle {
    pub bold: bool,
    pub italic: bool,
    pub underline: bool,
}

/// The style contribution of one scoped rule: each part is optional.
#[derive(Clone, Copy, Debug, PartialEq, Eq)]
pub struct StyleModifier {
    pub foreground: Option<Color>,
    pub background: Option<Color>,
    pub font_style: Option<FontStyle>,
}

/// Theme-wide default settings.
#[derive(Clone, Copy, Debug, PartialEq, Eq)]
pub struct ThemeSettings {
    pub foreground: Option<Color>,
    pub background: Option<Color>,
    pub caret: Option<Color>,
    pub line_highlight: Option<Color>,
    pub selection: Option<Color>,
}

/// One scoped style rule.
#[derive(Clone, Debug)]
pub struct ThemeItem {
    pub scope: String,
    pub style: StyleModifier,
}

/// A validated theme: its identity, its default settings, and its scoped
/// style rules in document order.
#[derive(Clone, Debug)]
pub struct Theme {
    pub name: Option<String>,
    pub author: Option<String>,
    pub settings: ThemeSettings,
    pub scopes: Vec<ThemeItem>,
}

/// The mathematical value of a `ThemeItem`.
pub struct ThemeItemView {
    pub scope: Seq<char>,
    pub style: StyleModifier,
}

impl View for ThemeItem {
    type V = ThemeItemView;

    open spec fn view(&self) -> ThemeItemView {
        ThemeItemView { scope: self.scope@, style: self.style }
    }
}

/// The mathematical value of a `Theme`.
pub struct ThemeView {
    pub name: Option<Seq<char>>,
    pub author: Option<Seq<char>>,
    pub settings: ThemeSettings,
    pub scopes: Seq<ThemeItemView>,
}

/// The view of an optional string.
pub open spec fn option_view(o: Option<String>) -> Option<Seq<char>> {
    match o {
        Some(s) => Some(s@),
        None => None,
    }
}

/// The views of a list of scoped rules, in order.
pub open spec fn views_of(scopes: Seq<ThemeItem>) -> Seq<ThemeItemView> {
    scopes.map_values(|it: ThemeItem| it@)
}

impl View for Theme {
    type V = ThemeView;

    open spec fn view(&self) -> ThemeView {
        ThemeView {
            name: option_view(self.name),
            author: option_view(self.author),
            settings: self.settings,
            scopes: views_of(self.scopes@),
        }
    }
}

/// Why a settings tree is not a usable theme.
#[derive(Clone, Copy, Debug, PartialEq, Eq, Structural)]
pub enum ParseThemeError {
    /// The top-level value is not a dictionary.
    NotADictionary,
    /// The top-level `settings` entry is missing or not an array.
    UndefinedSettings,
    /// An element of the `settings` array is not a dictionary.
    ItemNotADictionary,
    /// An element's `scope` entry is not a string.
    ScopeIsNotString,
    /// An element's `settings` entry is missing or not a dictionary.
    UndefinedScopeSettings,
    /// A color entry is not a string of the form `#rrggbb` or `#rrggbbaa`.
    IncorrectColor,
    /// A `fontStyle` entry is not a string of known style words.
    IncorrectFontStyle,
}

/// The value of one hex digit, or `None` for any other character.
pub open spec fn spec_hex_val(c: char) -> Option<u8> {
    let u = c as u32;
    if 0x30 <= u && u <= 0x39 {
        Some((u - 0x30) as u8)
    } else if 0x41 <= u && u <= 0x46 {
        Some((u - 0x41 + 10) as u8)
    } else if 0x61 <= u && u <= 0x66 {
        Some((u - 0x61 + 10) as u8)
    } else {
        None
    }
}

/// The byte written by the two hex digits at positions `i` and `i + 1`.
pub open spec fn spec_hex_byte(s: Seq<char>, i: int) -> Option<u8>
    recommends
        0 <= i && i + 1 < s.len(),
{
    match (spec_hex_val(s[i]), spec_hex_val(s[i + 1])) {
        (Some(hi), Some(lo)) => Some((hi * 16 + lo) as u8),
        _ => None,
    }
}

/// The color written `#rrggbb` or `#rrggbbaa`; `None` for any other form.
pub open spec fn spec_color(s: Seq<char>) -> Option<Color> {
    if (s.len() == 7 || s.len() == 9) && s[0] == '#' {
        match (spec_hex_byte(s, 1), spec_hex_byte(s, 3), spec_hex_byte(s, 5)) {
            (Some(cr), Some(cg), Some(cb)) => if s.len() == 7 {
                Some(Color { r: cr, g: cg, b: cb, a: 0xff })
            } else {
                match spec_hex_byte(s, 7) {
                    Some(ca) => Some(Color { r: cr, g: cg, b: cb, a: ca }),
                    None => None,
                }
            },
            _ => None,
        }
    } else {
        None
    }
}

/// The flags claimed by one style word; the empty word claims none.
pub open spec fn spec_word_flags(w: Seq<char>) -> Option<FontStyle> {
    if w.len() == 0 {
        Some(FontStyle { bold: false, italic: false, underline: false })
    } else if w == "bold"@ {
        Some(FontStyle { bold: true, italic: false, underline: false })
    } else if w == "italic"@ {
        Some(FontStyle { bold: false, italic: true, underline: false })
    } else if w == "underline"@ {
        Some(FontStyle { bold: false, italic: false, underline: true })
    } else {
        None
    }
}

/// The union of two sets of font-style flags.
pub open spec fn spec_fs_or(a: FontStyle, b: FontStyle) -> FontStyle {
    FontStyle {
        bold: a.bold || b.bold,
        italic: a.italic || b.italic,
        underline: a.underline || b.underline,
    }
}

/// Scans `s` from position `i` with `w` the word read so far: the flags of
/// all space-separated words, or `None` on the first unknown word.
pub open spec fn spec_font_style_scan(s: Seq<char>, i: int, w: Seq<char>) -> Option<FontStyle>
    decreases s.len() - i,
{
    if i < 0 || i >= s.len() {
        spec_word_flags(w)
    } else if s[i] == ' ' {
        match (spec_word_flags(w), spec_font_style_scan(s, i + 1, Seq::empty())) {
            (Some(a), Some(b)) => Some(spec_fs_or(a, b)),
            _ => None,
        }
    } else {
        spec_font_style_scan(s, i + 1, w.push(s[i]))
    }
}

/// The font style written as space-separated words among `bold`, `italic`
/// and `underline`; `None` when any word is unknown.
pub open spec fn spec_font_style(s: Seq<char>) -> Option<FontStyle> {
    spec_font_style_scan(s, 0, Seq::empty())
}

/// A color-valued field of a dictionary: absent is `None`, a well-formed
/// color string is that color, anything else is `IncorrectColor`.
pub open spec fn spec_color_field(entries: Seq<(String, Settings)>, key: Seq<char>) -> Result<
    Option<Color>,
    ParseThemeError,
> {
    match spec_lookup(entries, key) {
        None => Ok(None),
        Some(Settings::Str(s)) => match spec_color(s@) {
            Some(c) => Ok(Some(c)),
            None => Err(ParseThemeError::IncorrectColor),
        },
        Some(_) => Err(ParseThemeError::IncorrectColor),
    }
}

/// The `fontStyle` field of a dictionary, by the same rule as colors.
pub open spec fn spec_font_style_field(entries: Seq<(String, Settings)>, key: Seq<char>) -> Result<
    Option<FontStyle>,
    ParseThemeError,
> {
    match spec_lookup(entries, key) {
        None => Ok(None),
        Some(Settings::Str(s)) => match spec_font_style(s@) {
            Some(f) => Ok(Some(f)),
            None => Err(ParseThemeError::IncorrectFontStyle),
        },
        Some(_) => Err(ParseThemeError::IncorrectFontStyle),
    }
}

/// A string-valued field of a dictionary; anything but a string counts as
/// absent.
pub open spec fn spec_string_field(entries: Seq<(String, Settings)>, key: Seq<char>) -> Option<
    Seq<char>,
> {
    match spec_lookup(entries, key) {
        Some(Settings::Str(s)) => Some(s@),
        _ => None,
    }
}

/// The style rule written by one scoped element's `settings` dictionary,
/// reading `foreground`, `background` and `fontStyle` in that order and
/// failing on the first bad field.
pub open spec fn spec_style(d: Seq<(String, Settings)>) -> Result<StyleModifier, ParseThemeError> {
    match spec_color_field(d, "foreground"@) {
        Err(e) => Err(e),
        Ok(fg) => match spec_color_field(d, "background"@) {
            Err(e) => Err(e),
            Ok(bg) => match spec_font_style_field(d, "fontStyle"@) {
                Err(e) => Err(e),
                Ok(fs) => Ok(StyleModifier { foreground: fg, background: bg, font_style: fs }),
            },
        },
    }
}

/// Theme settings with every field absent.
pub open spec fn spec_default_theme_settings() -> ThemeSettings {
    ThemeSettings {
        foreground: None,
        background: None,
        caret: None,
        line_highlight: None,
        selection: None,
    }
}

/// The theme-wide settings written by a global element's `settings`
/// dictionary, reading its color fields in a fixed order and failing on
/// the first bad one.
pub open spec fn spec_theme_settings(d: Seq<(String, Settings)>) -> Result<
    ThemeSettings,
    ParseThemeError,
> {
    match spec_color_field(d, "foreground"@) {
        Err(e) => Err(e),
        Ok(fg) => match spec_color_field(d, "background"@) {
            Err(e) => Err(e),
            Ok(bg) => match spec_color_field(d, "caret"@) {
                Err(e) => Err(e),
                Ok(caret) => match spec_color_field(d, "lineHighlight"@) {
                    Err(e) => Err(e),
                    Ok(lh) => match spec_color_field(d, "selection"@) {
                        Err(e) => Err(e),
                        Ok(sel) => Ok(
                            ThemeSettings {
                                foreground: fg,
                                background: bg,
                                caret: caret,
                                line_highlight: lh,
                                selection: sel,
                            },
                        ),
                    },
                },
            },
        },
    }
}

/// What one element of the `settings` array contributes.
pub enum ItemParsed {
    /// A theme-wide settings dictionary (an element without a `scope`).
    Global(ThemeSettings),
    /// One scoped style rule.
    Scoped(ThemeItemView),
}

/// The contribution of one element of the `settings` array.
#[verifier::opaque]
pub open spec fn spec_parse_item(item: Settings) -> Result<ItemParsed, ParseThemeError> {
    if !(item is Dict) {
        Err(ParseThemeError::ItemNotADictionary)
    } else {
        let e = item->Dict_0@;
        match spec_lookup(e, "scope"@) {
            Some(Settings::Str(sc)) => match spec_lookup(e, "settings"@) {
                Some(Settings::Dict(d)) => match spec_style(d@) {
                    Ok(st) => Ok(ItemParsed::Scoped(ThemeItemView { scope: sc@, style: st })),
                    Err(err) => Err(err),
                },
                _ => Err(ParseThemeError::UndefinedScopeSettings),
            },
            Some(_) => Err(ParseThemeError::ScopeIsNotString),
            None => match spec_lookup(e, "settings"@) {
                Some(Settings::Dict(d)) => match spec_theme_settings(d@) {
                    Ok(ts) => Ok(ItemParsed::Global(ts)),
                    Err(err) => Err(err),
                },
                _ => Err(ParseThemeError::UndefinedScopeSettings),
            },
        }
    }
}

/// Folds the elements of the `settings` array from position `i` onward
/// over the settings and rules gathered so far, stopping at the first bad
/// element. A later global element replaces the gathered settings whole;
/// scoped rules append in order.
pub open spec fn spec_fold_items(
    items: Seq<Settings>,
    i: int,
    ts: ThemeSettings,
    scopes: Seq<ThemeItemView>,
) -> Result<(ThemeSettings, Seq<ThemeItemView>), ParseThemeError>
    decreases items.len() - i,
{
    if i < 0 || i >= items.len() {
        Ok((ts, scopes))
    } else {
        match spec_parse_item(items[i]) {
            Err(e) => Err(e),
            Ok(ItemParsed::Global(g)) => spec_fold_items(items, i + 1, g, scopes),
            Ok(ItemParsed::Scoped(it)) => spec_fold_items(items, i + 1, ts, scopes.push(it)),
        }
    }
}

/// The theme denoted by a settings tree: the meaning of the validator.
pub open spec fn spec_parse_theme(s: Settings) -> Result<ThemeView, ParseThemeError> {
    if !(s is Dict) {
        Err(ParseThemeError::NotADictionary)
    } else {
        let e = s->Dict_0@;
        match spec_lookup(e, "settings"@) {
            Some(Settings::Array(items)) => match spec_fold_items(
                items@,
                0,
                spec_default_theme_settings(),
                Seq::empty(),
            ) {
                Ok(pair) => Ok(
                    ThemeView {
                        name: spec_string_field(e, "name"@),
                        author: spec_string_field(e, "author"@),
                        settings: pair.0,
                        scopes: pair.1,
                    },
                ),
                Err(err) => Err(err),
            },
            _ => Err(ParseThemeError::UndefinedSettings),
        }
    }
}

/// The value of one hex digit.
fn hex_val(c: char) -> (r: Option<u8>)
    ensures
        r == spec_hex_val(c),
{
    let u = c as u32;
    if 0x30 <= u && u <= 0x39 {
        Some((u - 0x30) as u8)
    } else if 0x41 <= u && u <= 0x46 {
        Some((u - 0x41 + 10) as u8)
    } else if 0x61 <= u && u <= 0x66 {
        Some((u - 0x61 + 10) as u8)
    } else {
        None
    }
}

/// The byte written by the two hex digits at `i` and `i + 1`.
fn hex_byte(s: &str, i: usize) -> (r: Option<u8>)
    requires
        i + 1 < s@.len(),
        s@.len() <= usize::MAX,
    ensures
        r == spec_hex_byte(s@, i as int),
{
    match (hex_val(s.get_char(i)), hex_val(s.get_char(i + 1))) {
        (Some(hi), Some(lo)) => Some(hi * 16 + lo),
        _ => None,
    }
}

/// Reads a `#rrggbb` or `#rrggbbaa` color string.
pub fn parse_color(s: &str) -> (r: Option<Color>)
    ensures
        r == spec_color(s@),
{
    let len = s.unicode_len();
    if (len == 7 || len == 9) && s.get_char(0) == '#' {
        match (hex_byte(s, 1), hex_byte(s, 3), hex_byte(s, 5)) {
            (Some(cr), Some(cg), Some(cb)) => if len == 7 {
                Some(Color { r: cr, g: cg, b: cb, a: 0xff })
            } else {
                match hex_byte(s, 7) {
                    Some(ca) => Some(Color { r: cr, g: cg, b: cb, a: ca }),
                    None => None,
                }
            },
            _ => None,
        }
    } else {
        None
    }
}

/// The flags claimed by the word at `s[from..to]`.
fn word_flags(s: &str, from: usize, to: usize) -> (r: Option<FontStyle>)
    requires
        from <= to <= s@.len(),
    ensures
        r == spec_word_flags(s@.subrange(from as int, to as int)),
{
    if to == from {
        Some(FontStyle { bold: false, italic: false, underline: false })
    } else {
        let w = s.substring_char(from, to).to_owned();
        if w.eq(&"bold".to_owned()) {
            Some(FontStyle { bold: true, italic: false, underline: false })
        } else if w.eq(&"italic".to_owned()) {
            Some(FontStyle { bold: false, italic: true, underline: false })
        } else if w.eq(&"underline".to_owned()) {
            Some(FontStyle { bold: false, italic: false, underline: true })
        } else {
            None
        }
    }
}

/// Scans the rest of a font-style string; `w_start` is where the current
/// word began.
fn font_style_scan(s: &str, i: usize, w_start: usize) -> (r: Option<FontStyle>)
    requires
        w_start <= i <= s@.len(),
    ensures
        r == spec_font_style_scan(s@, i as int, s@.subrange(w_start as int, i as int)),
    decreases s@.len() - i,
{
    let len = s.unicode_len();
    if i >= len {
        word_flags(s, w_start, i)
    } else if s.get_char(i) == ' ' {
        let a = word_flags(s, w_start, i);
        let b = font_style_scan(s, i + 1, i + 1);
        proof {
            assert(s@.subrange((i + 1) as int, (i + 1) as int) =~= Seq::<char>::empty());
        }
        match (a, b) {
            (Some(x), Some(y)) => Some(
                FontStyle {
                    bold: x.bold || y.bold,
                    italic: x.italic || y.italic,
                    underline: x.underline || y.underline,
                },
            ),
            _ => None,
        }
    } else {
        proof {
            assert(s@.subrange(w_start as int, (i + 1) as int) =~= s@.subrange(
                w_start as int,
                i as int,
            ).push(s@[i as int]));
        }
        font_style_scan(s, i + 1, w_start)
    }
}

/// Reads a font-style string of space-separated style words.
pub fn parse_font_style(s: &str) -> (r: Option<FontStyle>)
    ensures
        r == spec_font_style(s@),
{
    proof {
        assert(s@.subrange(0, 0) =~= Seq::<char>::empty());
    }
    font_style_scan(s, 0, 0)
}

/// Reads a color-valued field of a dictionary.
fn color_field(entries: &Vec<(String, Settings)>, key: &String) -> (r: Result<
    Option<Color>,
    ParseThemeError,
>)
    ensures
        r == spec_color_field(entries@, key@),
{
    match lookup(entries, key) {
        None => Ok(None),
        Some(v) => match v {
            Settings::Str(s) => match parse_color(s.as_str()) {
                Some(c) => Ok(Some(c)),
                None => Err(ParseThemeError::IncorrectColor),
            },
            _ => Err(ParseThemeError::IncorrectColor),
        },
    }
}

/// Reads the `fontStyle` field of a dictionary.
fn font_style_field(entries: &Vec<(String, Settings)>, key: &String) -> (r: Result<
    Option<FontStyle>,
    ParseThemeError,
>)
    ensures
        r == spec_font_style_field(entries@, key@),
{
    match lookup(entries, key) {
        None => Ok(None),
        Some(v) => match v {
            Settings::Str(s) => match parse_font_style(s.as_str()) {
                Some(f) => Ok(Some(f)),
                None => Err(ParseThemeError::IncorrectFontStyle),
            },
            _ => Err(ParseThemeError::IncorrectFontStyle),
        },
    }
}

/// Reads a string-valued field of a dictionary.
fn string_field(entries: &Vec<(String, Settings)>, key: &String) -> (r: Option<String>)
    ensures
        spec_string_field(entries@, key@) == option_view(r),
{
    match lookup(entries, key) {
        Some(v) => match v {
            Settings::Str(s) => Some(s.clone()),
            _ => None,
        },
        None => None,
    }
}

/// Reads one scoped element's style rule.
fn style_of(d: &Vec<(String, Settings)>) -> (r: Result<StyleModifier, ParseThemeError>)
    ensures
        r == spec_style(d@),
{
    let fg = match color_field(d, &"foreground".to_owned()) {
        Ok(v) => v,
        Err(e) => {
            return Err(e);
        },
    };
    let bg = match color_field(d, &"background".to_owned()) {
        Ok(v) => v,
        Err(e) => {
            return Err(e);
        },
    };
    let fs = match font_style_field(d, &"fontStyle".to_owned()) {
        Ok(v) => v,
        Err(e) => {
            return Err(e);
        },
    };
    Ok(StyleModifier { foreground: fg, background: bg, font_style: fs })
}

/// Reads a global element's theme-wide settings.
fn theme_settings_of(d: &Vec<(String, Settings)>) -> (r: Result<ThemeSettings, ParseThemeError>)
    ensures
        r == spec_theme_settings(d@),
{
    let fg = match color_field(d, &"foreground".to_owned()) {
        Ok(v) => v,
        Err(e) => {
            return Err(e);
        },
    };
    let bg = match color_field(d, &"background".to_owned()) {
        Ok(v) => v,
        Err(e) => {
            return Err(e);
        },
    };
    let caret = match color_field(d, &"caret".to_owned()) {
        Ok(v) => v,
        Err(e) => {
            return Err(e);
        },
    };
    let lh = match color_field(d, &"lineHighlight".to_owned()) {
        Ok(v) => v,
        Err(e) => {
            return Err(e);
        },
    };
    let sel = match color_field(d, &"selection".to_owned()) {
        Ok(v) => v,
        Err(e) => {
            return Err(e);
        },
    };
    Ok(
        ThemeSettings {
            foreground: fg,
            background: bg,
            caret: caret,
            line_highlight: lh,
            selection: sel,
        },
    )
}

/// One step of the fold stops at a bad element.
proof fn lemma_fold_err(
    items: Seq<Settings>,
    i: int,
    ts: ThemeSettings,
    scopes: Seq<ThemeItemView>,
    e: ParseThemeError,
)
    requires
        0 <= i < items.len(),
        spec_parse_item(items[i]) == Err::<ItemParsed, ParseThemeError>(e),
    ensures
        spec_fold_items(items, i, ts, scopes) == Err::<
            (ThemeSettings, Seq<ThemeItemView>),
            ParseThemeError,
        >(e),
{
}

/// One step of the fold over a global element replaces the settings.
proof fn lemma_fold_global(
    items: Seq<Settings>,
    i: int,
    ts: ThemeSettings,
    scopes: Seq<ThemeItemView>,
    g: ThemeSettings,
)
    requires
        0 <= i < items.len(),
        spec_parse_item(items[i]) == Ok::<ItemParsed, ParseThemeError>(ItemParsed::Global(g)),
    ensures
        spec_fold_items(items, i, ts, scopes) == spec_fold_items(items, i + 1, g, scopes),
{
}

/// One step of the fold over a scoped element appends its rule.
proof fn lemma_fold_scoped(
    items: Seq<Settings>,
    i: int,
    ts: ThemeSettings,
    scopes: Seq<ThemeItemView>,
    it: ThemeItemView,
)
    requires
        0 <= i < items.len(),
        spec_parse_item(items[i]) == Ok::<ItemParsed, ParseThemeError>(ItemParsed::Scoped(it)),
    ensures
        spec_fold_items(items, i, ts, scopes) == spec_fold_items(items, i + 1, ts, scopes.push(it)),
{
}

/// The fold past the last element returns what was gathered.
proof fn lemma_fold_done(items: Seq<Settings>, i: int, ts: ThemeSettings, scopes: Seq<ThemeItemView>)
    requires
        i >= items.len(),
    ensures
        spec_fold_items(items, i, ts, scopes) == Ok::<
            (ThemeSettings, Seq<ThemeItemView>),
            ParseThemeError,
        >((ts, scopes)),
{
}

/// A failing fold makes the whole parse fail the same way.
proof fn lemma_theme_err(settings: Settings, items: Vec<Settings>, e: ParseThemeError)
    requires
        settings is Dict,
        spec_lookup(settings->Dict_0@, "settings"@) == Some(Settings::Array(items)),
        spec_fold_items(items@, 0, spec_default_theme_settings(), Seq::empty()) == Err::<
            (ThemeSettings, Seq<ThemeItemView>),
            ParseThemeError,
        >(e),
    ensures
        spec_parse_theme(settings) == Err::<ThemeView, ParseThemeError>(e),
{
}

/// A successful fold makes the whole parse succeed with its result.
proof fn lemma_theme_ok(
    settings: Settings,
    items: Vec<Settings>,
    pair: (ThemeSettings, Seq<ThemeItemView>),
)
    requires
        settings is Dict,
        spec_lookup(settings->Dict_0@, "settings"@) == Some(Settings::Array(items)),
        spec_fold_items(items@, 0, spec_default_theme_settings(), Seq::empty()) == Ok::<
            (ThemeSettings, Seq<ThemeItemView>),
            ParseThemeError,
        >(pair),
    ensures
        spec_parse_theme(settings) == Ok::<ThemeView, ParseThemeError>(
            ThemeView {
                name: spec_string_field(settings->Dict_0@, "name"@),
                author: spec_string_field(settings->Dict_0@, "author"@),
                settings: pair.0,
                scopes: pair.1,
            },
        ),
{
}

/// What one element of the `settings` array contributed, as runtime data.
enum ItemOutcome {
    Global(ThemeSettings),
    Scoped(ThemeItem),
}

/// Reads one element of the `settings` array.
fn parse_item(item: &Settings) -> (r: Result<ItemOutcome, ParseThemeError>)
    ensures
        r is Ok <==> spec_parse_item(*item) is Ok,
        (r matches Ok(ItemOutcome::Global(g)) ==> spec_parse_item(*item) == Ok::<
            ItemParsed,
            ParseThemeError,
        >(ItemParsed::Global(g))),
        (r matches Ok(ItemOutcome::Scoped(it)) ==> spec_parse_item(*item) == Ok::<
            ItemParsed,
            ParseThemeError,
        >(ItemParsed::Scoped(it@))),
        (r matches Err(e) ==> spec_parse_item(*item) == Err::<ItemParsed, ParseThemeError>(e)),
{
    proof {
        reveal(spec_parse_item);
    }
    let e = match item {
        Settings::Dict(v) => v,
        _ => {
            return Err(ParseThemeError::ItemNotADictionary);
        },
    };
    match lookup(e, &"scope".to_owned()) {
        Some(scope_v) => match scope_v {
            Settings::Str(sc) => match lookup(e, &"settings".to_owned()) {
                Some(settings_v) => match settings_v {
                    Settings::Dict(d) => match style_of(d) {
                        Ok(st) => Ok(
                            ItemOutcome::Scoped(ThemeItem { scope: sc.clone(), style: st }),
                        ),
                        Err(err) => Err(err),
                    },
                    _ => Err(ParseThemeError::UndefinedScopeSettings),
                },
                None => Err(ParseThemeError::UndefinedScopeSettings),
            },
            _ => Err(ParseThemeError::ScopeIsNotString),
        },
        None => match lookup(e, &"settings".to_owned()) {
            Some(settings_v) => match settings_v {
                Settings::Dict(d) => match theme_settings_of(d) {
                    Ok(ts) => Ok(ItemOutcome::Global(ts)),
                    Err(err) => Err(err),
                },
                _ => Err(ParseThemeError::UndefinedScopeSettings),
            },
            None => Err(ParseThemeError::UndefinedScopeSettings),
        },
    }
}

impl Theme {
    /// Validates a settings tree into a theme: the runtime form of
    /// `spec_parse_theme`, which it returns exactly.
    #[verifier::rlimit(60)]
    pub fn parse_settings(settings: Settings) -> (r: Result<Theme, ParseThemeError>)
        ensures
            (r matches Ok(t) ==> spec_parse_theme(settings) == Ok::<ThemeView, ParseThemeError>(
                t@,
            )),
            (r matches Err(e) ==> spec_parse_theme(settings) == Err::<ThemeView, ParseThemeError>(
                e,
            )),
    {
        let entries = match &settings {
            Settings::Dict(v) => v,
            _ => {
                return Err(ParseThemeError::NotADictionary);
            },
        };
        let items = match lookup(entries, &"settings".to_owned()) {
            Some(v) => match v {
                Settings::Array(a) => a,
                _ => {
                    return Err(ParseThemeError::UndefinedSettings);
                },
            },
            None => {
                return Err(ParseThemeError::UndefinedSettings);
            },
        };
        let ghost items0 = items@;
        let mut ts = ThemeSettings {
            foreground: None,
            background: None,
            caret: None,
            line_highlight: None,
            selection: None,
        };
        let mut scopes: Vec<ThemeItem> = Vec::new();
        let mut i: usize = 0;
        proof {
            assert(views_of(scopes@) =~= Seq::<ThemeItemView>::empty());
        }
        while i < items.len()
            invariant
                0 <= i <= items.len(),
                items0 == items@,
                settings is Dict,
                entries@ == settings->Dict_0@,
                spec_lookup(settings->Dict_0@, "settings"@) == Some(Settings::Array(*items)),
                spec_fold_items(items0, 0, spec_default_theme_settings(), Seq::empty())
                    == spec_fold_items(items0, i as int, ts, views_of(scopes@)),
            decreases items.len() - i,
        {
            let ghost scopes_pre = views_of(scopes@);
            match parse_item(&items[i]) {
                Err(e) => {
                    proof {
                        lemma_fold_err(items0, i as int, ts, scopes_pre, e);
                        lemma_theme_err(settings, *items, e);
                    }
                    return Err(e);
                },
                Ok(ItemOutcome::Global(g)) => {
                    proof {
                        lemma_fold_global(items0, i as int, ts, scopes_pre, g);
                    }
                    ts = g;
                },
                Ok(ItemOutcome::Scoped(it)) => {
                    let ghost itv = it@;
                    proof {
                        lemma_fold_scoped(items0, i as int, ts, scopes_pre, itv);
                    }
                    scopes.push(it);
                    proof {
                        assert(views_of(scopes@) =~= scopes_pre.push(itv));
                    }
                },
            }
            i = i + 1;
        }
        let name = string_field(entries, &"name".to_owned());
        let author = string_field(entries, &"author".to_owned());
        proof {
            lemma_fold_done(items0, i as int, ts, views_of(scopes@));
            lemma_theme_ok(settings, *items, (ts, views_of(scopes@)));
        }
        let theme = Theme { name, author, settings: ts, scopes };
        Ok(theme)
    }
}

} // verus!
