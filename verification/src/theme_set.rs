//! Discovering, loading and cataloguing themes.
//!
//! `load_from_folder` walks a directory tree, keeps the paths with the
//! theme-file extension, materializes each into a `Theme`, and gathers
//! the results into a catalog keyed by file stem. Any failure anywhere
//! (traversal, file access, document parse, validation, unusable file
//! name) aborts the whole load with that one error: no partial catalog is
//! ever returned.

use vstd::prelude::*;

use crate::paths::file_stem_of;
use crate::paths::filter_theme_paths;
use crate::paths::spec_file_stem;
use crate::paths::spec_filter_theme_paths;
use crate::paths::spec_is_theme_path;
use crate::settings::Settings;
use crate::theme::ParseThemeError;
use crate::theme::Theme;
use crate::theme::ThemeView;
use crate::theme::spec_parse_theme;

verus! {

#[verifier::external_type_specification]
#[verifier::external_body]
pub struct ExWalkdirError(walkdir::Error);

#[verifier::external_type_specification]
#[verifier::external_body]
pub struct ExPlistError(plist::Error);

#[verifier::external_type_specification]
#[verifier::external_body]
pub struct ExIoError(std::io::Error);

#[verifier::external_type_specification]
#[verifier::external_body]
pub struct ExPlistValue(plist::Value);

/// Why a catalog load failed: one case per failure origin, each keeping
/// the originating cause.
#[derive(Debug)]
pub enum ThemeSetError {
    /// The directory walk itself failed.
    WalkDir(walkdir::Error),
    /// A theme file could not be opened or read.
    Io(std::io::Error),
    /// A structurally valid document was not a usable theme.
    ParseTheme(ParseThemeError),
    /// A file held no well-formed settings document.
    ReadSettings(plist::Error),
    /// A path yielded no usable theme identifier.
    BadPath,
}

/// A theme view that some settings tree validates to: every theme a load
/// hands out is of this kind.
pub open spec fn spec_validated(t: ThemeView) -> bool {
    exists|s: Settings| spec_parse_theme(s) == Ok::<ThemeView, ParseThemeError>(t)
}

/// No two entries share an identifier.
pub open spec fn keys_unique(entries: Seq<(String, Theme)>) -> bool {
    forall|i: int, j: int|
        0 <= i < j < entries.len() ==> entries[i].0@ != entries[j].0@
}

/// Some entry holds the identifier `k`.
pub open spec fn seq_has_key(entries: Seq<(String, Theme)>, k: Seq<char>) -> bool {
    exists|i: int| 0 <= i < entries.len() && (#[trigger] entries[i]).0@ == k
}

/// Some path in `paths` has the stem `k`.
pub open spec fn spec_stem_present(paths: Seq<String>, k: Seq<char>) -> bool {
    exists|i: int| 0 <= i < paths.len() && spec_file_stem(#[trigger] paths[i]@) == Some(k)
}

/// Extending the processed prefix by one path adds exactly that path's
/// stem to the stems present.
proof fn lemma_stem_present_step(paths: Seq<String>, i: int, k: Seq<char>)
    requires
        0 <= i < paths.len(),
    ensures
        spec_stem_present(paths.take(i + 1), k) <==> (spec_stem_present(paths.take(i), k)
            || spec_file_stem(paths[i]@) == Some(k)),
{
    let s1 = paths.take(i + 1);
    let s0 = paths.take(i);
    assert(s1.drop_last() =~= s0);
    if spec_stem_present(s1, k) {
        let w = choose|w: int| 0 <= w < s1.len() && spec_file_stem(#[trigger] s1[w]@) == Some(k);
        if w < i {
            assert(s0[w] == s1[w]);
            assert(spec_stem_present(s0, k));
        } else {
            assert(s1[w] == paths[i]);
        }
    }
    if spec_stem_present(s0, k) {
        let w = choose|w: int| 0 <= w < s0.len() && spec_file_stem(#[trigger] s0[w]@) == Some(k);
        assert(s1[w] == s0[w]);
        assert(spec_stem_present(s1, k));
    }
    if spec_file_stem(paths[i]@) == Some(k) {
        assert(s1[i] == paths[i]);
        assert(spec_stem_present(s1, k));
    }
}

/// The catalog `ts` is what loading exactly the theme paths `ps` gives:
/// every path carries the theme-file extension, the key set equals the
/// set of the paths' stems, and the entries are an in-order fold of one
/// insert per path (so a later path overwrites an earlier one that
/// shares a stem).
pub open spec fn spec_catalog_of_paths(ts: ThemeSet, ps: Seq<String>) -> bool {
    &&& forall|i: int| 0 <= i < ps.len() ==> spec_is_theme_path(#[trigger] ps[i]@)
    &&& forall|k: Seq<char>| #[trigger] ts.has_key(k) <==> spec_stem_present(ps, k)
    &&& spec_some_insert_trace(ts, ps)
}

/// A catalog of themes keyed by the stem of the file each came from.
pub struct ThemeSet {
    pub themes: Vec<(String, Theme)>,
}

impl ThemeSet {
    /// A well-formed catalog: identifiers are unique and every theme in
    /// it is the validation of some settings tree.
    pub open spec fn wf(self) -> bool {
        &&& keys_unique(self.themes@)
        &&& forall|i: int|
            0 <= i < self.themes@.len() ==> spec_validated(#[trigger] self.themes@[i].1@)
    }

    /// Whether the catalog has an entry named `k`.
    pub open spec fn has_key(self, k: Seq<char>) -> bool {
        seq_has_key(self.themes@, k)
    }

    /// The set of identifiers present.
    pub open spec fn key_set(self) -> Set<Seq<char>> {
        Set::new(|k: Seq<char>| self.has_key(k))
    }
}

/// A well-formed catalog holds at most one entry per identifier.
pub proof fn lemma_one_entry_per_key(ts: ThemeSet, i: int, j: int)
    requires
        ts.wf(),
        0 <= i < ts.themes@.len(),
        0 <= j < ts.themes@.len(),
        i != j,
    ensures
        ts.themes@[i].0@ != ts.themes@[j].0@,
{
}

/// Relies on `walkdir::WalkDir`: its iterator yields every entry of the
/// tree rooted at `folder` (the root itself included), descending into
/// every subdirectory, and yields an error for a root that cannot be read
/// or a step the walk cannot take. The first error aborts the walk here.
/// Entry paths are taken lossily as strings: in a path that is not valid
/// UTF-8 the offending bytes are replaced, so every entry yields a plain
/// textual path and the walk never fails on a file's name.
#[verifier::external_body]
fn walk_entry_paths(folder: &str) -> (r: Result<Vec<String>, ThemeSetError>)
    ensures
        r matches Err(e) ==> e is WalkDir,
{
    let mut paths = Vec::new();
    for entry in walkdir::WalkDir::new(folder) {
        match entry {
            Ok(e) => paths.push(e.path().to_string_lossy().into_owned()),
            Err(e) => return Err(ThemeSetError::WalkDir(e)),
        }
    }
    Ok(paths)
}

/// Relies on `plist::Value::from_file`, which opens the file itself and
/// parses any plist encoding, and on `plist::Error::into_io`, which tells
/// a file-access failure apart from a document-parse failure.
#[verifier::external_body]
fn load_plist_value(path: &str) -> (r: Result<plist::Value, ThemeSetError>)
    ensures
        r matches Err(e) ==> e is Io || e is ReadSettings,
{
    match plist::Value::from_file(path) {
        Ok(v) => Ok(v),
        Err(e) => match e.into_io() {
            Ok(ioe) => Err(ThemeSetError::Io(ioe)),
            Err(pe) => Err(ThemeSetError::ReadSettings(pe)),
        },
    }
}

/// Converts a parsed `plist::Value` into the library's settings tree:
/// dictionaries, arrays, strings, booleans and `i64`-sized integers keep
/// their shape; every other scalar becomes `Settings::Other`.
#[verifier::external_body]
fn convert_value(v: plist::Value) -> Settings {
    match v {
        plist::Value::Dictionary(d) => Settings::Dict(
            d.into_iter().map(|(k, x)| (k, convert_value(x))).collect(),
        ),
        plist::Value::Array(a) => Settings::Array(a.into_iter().map(convert_value).collect()),
        plist::Value::String(s) => Settings::Str(s),
        plist::Value::Boolean(b) => Settings::Bool(b),
        plist::Value::Integer(n) => match n.as_signed() {
            Some(i) => Settings::Int(i),
            None => Settings::Other,
        },
        _ => Settings::Other,
    }
}

/// Where `(name, theme)` lands in an entry list: in place of the first
/// entry sharing the name, or appended when no entry does. The inserted
/// theme always wins over whatever the name held before.
pub open spec fn spec_insert_entry(
    entries: Seq<(String, Theme)>,
    name: String,
    theme: Theme,
) -> Seq<(String, Theme)>
    decreases entries.len(),
{
    if entries.len() == 0 {
        seq![(name, theme)]
    } else if entries[0].0@ == name@ {
        seq![(name, theme)] + entries.drop_first()
    } else {
        seq![entries[0]] + spec_insert_entry(entries.drop_first(), name, theme)
    }
}

/// `spec_insert_entry` leaves a prefix without the name untouched.
proof fn lemma_insert_entry_skip(entries: Seq<(String, Theme)>, name: String, theme: Theme, i: int)
    requires
        0 <= i <= entries.len(),
        forall|j: int| 0 <= j < i ==> entries[j].0@ != name@,
    ensures
        spec_insert_entry(entries, name, theme) == entries.take(i) + spec_insert_entry(
            entries.skip(i),
            name,
            theme,
        ),
    decreases i,
{
    if i == 0 {
        assert(entries.skip(0) =~= entries);
        assert(entries.take(0) + spec_insert_entry(entries, name, theme) =~= spec_insert_entry(
            entries,
            name,
            theme,
        ));
    } else {
        lemma_insert_entry_skip(entries, name, theme, i - 1);
        let si = entries.skip(i - 1);
        assert(si[0] == entries[i - 1]);
        assert(si[0].0@ != name@);
        assert(si.drop_first() =~= entries.skip(i));
        assert(entries.take(i - 1) + (seq![entries[i - 1]] + spec_insert_entry(
            entries.skip(i),
            name,
            theme,
        )) =~= entries.take(i) + spec_insert_entry(entries.skip(i), name, theme));
    }
}

/// The entry list built by performing the inserts of `pairs` in order on
/// `entries`: later pairs overwrite earlier ones that share a name.
pub open spec fn spec_fold_inserts(
    entries: Seq<(String, Theme)>,
    pairs: Seq<(String, Theme)>,
) -> Seq<(String, Theme)>
    decreases pairs.len(),
{
    if pairs.len() == 0 {
        entries
    } else {
        spec_fold_inserts(spec_insert_entry(entries, pairs[0].0, pairs[0].1), pairs.drop_first())
    }
}

/// Folding one more pair performs its insert last.
proof fn lemma_fold_inserts_push(
    entries: Seq<(String, Theme)>,
    pairs: Seq<(String, Theme)>,
    p: (String, Theme),
)
    ensures
        spec_fold_inserts(entries, pairs.push(p)) == spec_insert_entry(
            spec_fold_inserts(entries, pairs),
            p.0,
            p.1,
        ),
    decreases pairs.len(),
{
    reveal_with_fuel(spec_fold_inserts, 3);
    if pairs.len() == 0 {
        assert(pairs.push(p)[0] == p);
        assert(pairs.push(p).drop_first() =~= Seq::<(String, Theme)>::empty());
    } else {
        assert(pairs.push(p)[0] == pairs[0]);
        assert(pairs.push(p).drop_first() =~= pairs.drop_first().push(p));
        lemma_fold_inserts_push(
            spec_insert_entry(entries, pairs[0].0, pairs[0].1),
            pairs.drop_first(),
            p,
        );
    }
}

/// The catalog's entries are exactly the in-order fold of one insert per
/// path, each pair keyed by its path's stem: a later path's theme
/// overwrites an earlier one under the same stem.
pub open spec fn spec_built_by_inserts(
    ts: ThemeSet,
    paths: Seq<String>,
    pairs: Seq<(String, Theme)>,
) -> bool {
    &&& pairs.len() == paths.len()
    &&& forall|i: int|
        0 <= i < pairs.len() ==> Some((#[trigger] pairs[i]).0@) == spec_file_stem(paths[i]@)
    &&& ts.themes@ == spec_fold_inserts(Seq::empty(), pairs)
}

/// Some in-order fold of one insert per path, each pair keyed by its
/// path's stem, builds exactly the catalog's entries.
pub open spec fn spec_some_insert_trace(ts: ThemeSet, paths: Seq<String>) -> bool {
    exists|pairs: Seq<(String, Theme)>| #[trigger] spec_built_by_inserts(ts, paths, pairs)
}

/// Puts `(name, theme)` into the entry list: a new entry when the
/// identifier is new, replacing the old entry whole when it is not — the
/// later insertion wins.
fn insert_theme(themes: &mut Vec<(String, Theme)>, name: String, theme: Theme)
    requires
        keys_unique(old(themes)@),
    ensures
        final(themes)@ == spec_insert_entry(old(themes)@, name, theme),
        keys_unique(final(themes)@),
        forall|k: Seq<char>|
            #[trigger] seq_has_key(final(themes)@, k) <==> (seq_has_key(old(themes)@, k) || k
                == name@),
        forall|j: int|
            0 <= j < final(themes)@.len() ==> (old(themes)@.contains(#[trigger] final(themes)@[j])
                || final(themes)@[j].0@ == name@ && final(themes)@[j].1 == theme),
        forall|j: int|
            0 <= j < final(themes)@.len() && (#[trigger] final(themes)@[j]).0@ == name@
                ==> final(themes)@[j].1 == theme,
{
    let ghost pre = themes@;
    let ghost namev = name@;
    let mut i: usize = 0;
    while i < themes.len()
        invariant
            0 <= i <= themes@.len(),
            themes@ == pre,
            pre == old(themes)@,
            keys_unique(pre),
            forall|j: int| 0 <= j < i ==> pre[j].0@ != namev,
            namev == name@,
        decreases themes@.len() - i,
    {
        if themes[i].0.eq(&name) {
            proof {
                assert(pre[i as int].0@ == namev);
            }
            let ghost names = name;
            let ghost themev = theme;
            themes[i] = (name, theme);
            proof {
                assert(themes@ == pre.update(i as int, (themes@[i as int])));
                assert(themes@[i as int] == (names, themev));
                assert(themes@[i as int].0@ == namev && themes@[i as int].1 == themev);
                lemma_insert_entry_skip(pre, names, themev, i as int);
                assert(pre.skip(i as int)[0] == pre[i as int]);
                assert(pre.skip(i as int)[0].0@ == names@);
                assert(pre.skip(i as int).drop_first() =~= pre.skip(i + 1));
                assert(pre.take(i as int) + (seq![(names, themev)] + pre.skip(i + 1))
                    =~= pre.update(i as int, (names, themev)));
                assert(themes@ == spec_insert_entry(pre, names, themev));
                assert forall|j: int|
                    0 <= j < themes@.len() && (#[trigger] themes@[j]).0@ == namev
                        implies themes@[j].1 == themev by {
                    if j != i {
                        assert(pre[j].0@ == namev);
                        assert(pre[i as int].0@ == namev);
                    }
                }
                assert forall|a: int, b: int|
                    0 <= a < b < themes@.len() implies themes@[a].0@ != themes@[b].0@ by {
                    assert(themes@[a].0@ == pre[a].0@);
                    assert(themes@[b].0@ == pre[b].0@);
                }
                assert forall|k: Seq<char>|
                    seq_has_key(themes@, k) <==> (seq_has_key(pre, k) || k == namev) by {
                    if seq_has_key(themes@, k) {
                        let w = choose|w: int|
                            0 <= w < themes@.len() && (#[trigger] themes@[w]).0@ == k;
                        if w == i {
                            assert(k == namev);
                        } else {
                            assert(pre[w].0@ == k);
                            assert(seq_has_key(pre, k));
                        }
                    }
                    if seq_has_key(pre, k) {
                        let w = choose|w: int| 0 <= w < pre.len() && (#[trigger] pre[w]).0@ == k;
                        if w == i {
                            assert(themes@[w].0@ == namev);
                            assert(pre[w].0@ == namev);
                        } else {
                            assert(themes@[w].0@ == k);
                        }
                        assert(seq_has_key(themes@, k));
                    }
                    if k == namev {
                        assert(themes@[i as int].0@ == k);
                        assert(seq_has_key(themes@, k));
                    }
                }
                assert forall|j: int|
                    0 <= j < themes@.len() implies (pre.contains(#[trigger] themes@[j])
                    || themes@[j].0@ == namev && themes@[j].1 == themev) by {
                    if j != i {
                        assert(pre[j] == themes@[j]);
                        assert(pre.contains(themes@[j]));
                    }
                }
            }
            return;
        }
        i = i + 1;
    }
    let ghost names = name;
    let ghost themev = theme;
    themes.push((name, theme));
    proof {
        assert(themes@ == pre.push(themes@[pre.len() as int]));
        assert(themes@[pre.len() as int] == (names, themev));
        assert(themes@[pre.len() as int].0@ == namev);
        lemma_insert_entry_skip(pre, names, themev, pre.len() as int);
        assert(pre.skip(pre.len() as int) =~= Seq::<(String, Theme)>::empty());
        assert(pre.take(pre.len() as int) + seq![(names, themev)] =~= pre.push((names, themev)));
        assert(themes@ == spec_insert_entry(pre, names, themev));
        assert forall|j: int|
            0 <= j < themes@.len() && (#[trigger] themes@[j]).0@ == namev
                implies themes@[j].1 == themev by {
            if j < pre.len() {
                assert(pre[j].0@ != namev);
            }
        }
        assert forall|k: Seq<char>|
            seq_has_key(themes@, k) <==> (seq_has_key(pre, k) || k == namev) by {
            if seq_has_key(themes@, k) {
                let w = choose|w: int| 0 <= w < themes@.len() && (#[trigger] themes@[w]).0@ == k;
                if w < pre.len() {
                    assert(pre[w].0@ == k);
                    assert(seq_has_key(pre, k));
                }
            }
            if seq_has_key(pre, k) {
                let w = choose|w: int| 0 <= w < pre.len() && (#[trigger] pre[w]).0@ == k;
                assert(themes@[w].0@ == k);
                assert(seq_has_key(themes@, k));
            }
            if k == namev {
                assert(themes@[pre.len() as int].0@ == k);
                assert(seq_has_key(themes@, k));
            }
        }
        assert forall|j: int|
            0 <= j < themes@.len() implies (pre.contains(#[trigger] themes@[j]) || themes@[j].0@
            == namev) by {
            if j < pre.len() {
                assert(pre[j] == themes@[j]);
                assert(pre.contains(themes@[j]));
            }
        }
    }
}

impl ThemeSet {
    /// Returns the paths under `folder` (to any depth) that carry the
    /// theme-file extension, in the order the walk yields them. Fails
    /// with the first traversal error, also when `folder` does not exist.
    pub fn discover_theme_paths(folder: &str) -> (r: Result<Vec<String>, ThemeSetError>)
        ensures
            r matches Ok(v) ==> forall|i: int|
                0 <= i < v@.len() ==> spec_is_theme_path(#[trigger] v@[i]@),
            r matches Ok(v) ==> exists|all: Seq<String>| v@ == spec_filter_theme_paths(all),
            r matches Err(e) ==> e is WalkDir,
    {
        match walk_entry_paths(folder) {
            Ok(all) => {
                let ghost allv = all@;
                let filtered = filter_theme_paths(all);
                proof {
                    assert(filtered@ == spec_filter_theme_paths(allv));
                    assert forall|i: int|
                        0 <= i < filtered@.len() implies spec_is_theme_path(
                        #[trigger] filtered@[i]@,
                    ) by {
                        allv.lemma_filter_pred(|p: String| spec_is_theme_path(p@), i);
                    }
                }
                Ok(filtered)
            },
            Err(e) => Err(e),
        }
    }

    /// Reads the settings document stored at `path`. Fails with a
    /// file-access error when the file cannot be opened or read, and with
    /// a document-parse error when its bytes are not a well-formed
    /// settings document.
    pub fn read_plist(path: &str) -> (r: Result<Settings, ThemeSetError>)
        ensures
            r matches Err(e) ==> e is Io || e is ReadSettings,
    {
        match load_plist_value(path) {
            Ok(v) => Ok(convert_value(v)),
            Err(e) => Err(e),
        }
    }

    /// Loads one theme from a path: reads the settings document there and
    /// validates it. Fails with a file-access error, a document-parse
    /// error, or a theme-validation error; never with a traversal or
    /// path error.
    pub fn get_theme(path: &str) -> (r: Result<Theme, ThemeSetError>)
        ensures
            r matches Ok(t) ==> spec_validated(t@),
            r matches Err(e) ==> e is Io || e is ReadSettings || e is ParseTheme,
    {
        let settings = match Self::read_plist(path) {
            Ok(s) => s,
            Err(e) => {
                return Err(e);
            },
        };
        let ghost sv = settings;
        match Theme::parse_settings(settings) {
            Ok(t) => {
                proof {
                    assert(spec_parse_theme(sv) == Ok::<ThemeView, ParseThemeError>(t@));
                }
                Ok(t)
            },
            Err(e) => Err(ThemeSetError::ParseTheme(e)),
        }
    }

    /// Loads every path of `paths` and catalogs the results by file stem,
    /// later paths overwriting earlier ones that share a stem. The first
    /// failure aborts the whole load: a theme that cannot be loaded, or a
    /// path without a stem, which is the bad-path error.
    pub fn load_from_paths(paths: &Vec<String>) -> (r: Result<ThemeSet, ThemeSetError>)
        ensures
            paths@.len() == 0 ==> r is Ok,
            r matches Ok(ts) ==> ts.wf(),
            r matches Ok(ts) ==> forall|k: Seq<char>|
                #[trigger] ts.has_key(k) <==> spec_stem_present(paths@, k),
            r matches Ok(ts) ==> forall|i: int|
                0 <= i < paths@.len() ==> spec_file_stem(#[trigger] paths@[i]@) is Some,
            r matches Ok(ts) ==> spec_some_insert_trace(ts, paths@),
            r matches Err(e) ==> !(e is WalkDir),
            (r matches Err(e) && e is BadPath) ==> exists|i: int|
                0 <= i < paths@.len() && spec_file_stem(#[trigger] paths@[i]@) is None,
    {
        let mut themes: Vec<(String, Theme)> = Vec::new();
        let ghost mut trace: Seq<(String, Theme)> = Seq::empty();
        let mut i: usize = 0;
        while i < paths.len()
            invariant
                0 <= i <= paths@.len(),
                keys_unique(themes@),
                forall|j: int|
                    0 <= j < themes@.len() ==> spec_validated(#[trigger] themes@[j].1@),
                forall|j: int| 0 <= j < i ==> spec_file_stem(#[trigger] paths@[j]@) is Some,
                forall|k: Seq<char>|
                    #[trigger] seq_has_key(themes@, k) <==> spec_stem_present(
                        paths@.take(i as int),
                        k,
                    ),
                trace.len() == i,
                forall|j: int|
                    0 <= j < trace.len() ==> Some((#[trigger] trace[j]).0@) == spec_file_stem(
                        paths@[j]@,
                    ),
                themes@ == spec_fold_inserts(Seq::empty(), trace),
            decreases paths@.len() - i,
        {
            let theme = match Self::get_theme(paths[i].as_str()) {
                Ok(t) => t,
                Err(e) => {
                    return Err(e);
                },
            };
            let stem = match file_stem_of(paths[i].as_str()) {
                Some(s) => s,
                None => {
                    return Err(ThemeSetError::BadPath);
                },
            };
            let ghost stems = stem;
            let ghost themev = theme;
            insert_theme(&mut themes, stem, theme);
            proof {
                lemma_fold_inserts_push(Seq::empty(), trace, (stems, themev));
                trace = trace.push((stems, themev));
                assert forall|k: Seq<char>|
                    #[trigger] seq_has_key(themes@, k) <==> spec_stem_present(
                        paths@.take(i + 1),
                        k,
                    ) by {
                    lemma_stem_present_step(paths@, i as int, k);
                }
            }
            i = i + 1;
        }
        let result = ThemeSet { themes };
        proof {
            assert(paths@.take(i as int) =~= paths@);
            assert(spec_built_by_inserts(result, paths@, trace));
            assert(spec_some_insert_trace(result, paths@));
        }
        Ok(result)
    }

    /// Loads all the themes in a folder: discovers every path with the
    /// theme-file extension anywhere under `folder` and catalogs them by
    /// file stem. Returns either a complete, well-formed catalog whose
    /// keys are exactly the stems of the discovered theme paths, or the
    /// first error met.
    pub fn load_from_folder(folder: &str) -> (r: Result<ThemeSet, ThemeSetError>)
        ensures
            r matches Ok(ts) ==> ts.wf(),
            r matches Ok(ts) ==> exists|ps: Seq<String>| spec_catalog_of_paths(ts, ps),
            r matches Err(e) ==> e is WalkDir || e is Io || e is ReadSettings || e is ParseTheme,
    {
        let paths = match Self::discover_theme_paths(folder) {
            Ok(p) => p,
            Err(e) => {
                return Err(e);
            },
        };
        match Self::load_from_paths(&paths) {
            Ok(ts) => {
                proof {
                    assert(spec_catalog_of_paths(ts, paths@));
                }
                Ok(ts)
            },
            Err(e) => {
                proof {
                    if e is BadPath {
                        let i = choose|i: int|
                            0 <= i < paths@.len() && spec_file_stem(#[trigger] paths@[i]@) is None;
                        crate::paths::lemma_theme_path_has_stem(paths@[i]@);
                    }
                }
                Err(e)
            },
        }
    }
}

} // verus!
