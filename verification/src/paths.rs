//! Path-name logic over plain `'/'`-separated path strings: the file name
//! is the part after the last separator, an extension is the part of the
//! file name after its last `.` (a leading `.` does not start an
//! extension), and the stem is the file name minus the extension. Matches
//! are case-sensitive throughout.

use vstd::prelude::*;

verus! {

/// The index right after the last `'/'` of `s`, or `0` when `s` has none:
/// where the file name starts.
pub open spec fn spec_name_start(s: Seq<char>) -> int
    decreases s.len(),
{
    if s.len() == 0 {
        0
    } else if s[s.len() - 1] == '/' {
        s.len() as int
    } else {
        spec_name_start(s.drop_last())
    }
}

/// `spec_name_start` points right after the last separator: no separator
/// at or after it, and one right before it unless it is `0`.
proof fn lemma_name_start(s: Seq<char>)
    ensures
        0 <= spec_name_start(s) <= s.len(),
        forall|j: int| spec_name_start(s) <= j < s.len() ==> s[j] != '/',
        spec_name_start(s) > 0 ==> s[spec_name_start(s) - 1] == '/',
    decreases s.len(),
{
    if s.len() == 0 {
    } else if s[s.len() - 1] == '/' {
    } else {
        lemma_name_start(s.drop_last());
        assert(forall|j: int| 0 <= j < s.len() - 1 ==> s.drop_last()[j] == s[j]);
    }
}

/// The index of the last `'.'` of `s` that lies strictly after `start`,
/// if any.
pub open spec fn spec_last_dot_after(s: Seq<char>, start: int) -> Option<int>
    decreases s.len(),
{
    if s.len() == 0 || s.len() <= start + 1 {
        None
    } else if s[s.len() - 1] == '.' {
        Some(s.len() - 1)
    } else {
        spec_last_dot_after(s.drop_last(), start)
    }
}

/// `spec_last_dot_after` finds exactly the last dot strictly after
/// `start`, when one exists.
proof fn lemma_last_dot_after(s: Seq<char>, start: int)
    requires
        start >= 0,
    ensures
        match spec_last_dot_after(s, start) {
            Some(d) => start < d < s.len() && s[d] == '.' && (forall|j: int|
                d < j < s.len() ==> s[j] != '.'),
            None => forall|j: int| start < j < s.len() ==> s[j] != '.',
        },
    decreases s.len(),
{
    if s.len() == 0 || s.len() <= start + 1 {
    } else if s[s.len() - 1] == '.' {
    } else {
        lemma_last_dot_after(s.drop_last(), start);
        assert(forall|j: int| 0 <= j < s.len() - 1 ==> s.drop_last()[j] == s[j]);
    }
}

/// The file name of `s`: everything after the last `'/'`.
pub open spec fn spec_file_name(s: Seq<char>) -> Seq<char> {
    s.subrange(spec_name_start(s), s.len() as int)
}

/// A file name that names no plain file: empty, `"."` or `".."`.
pub open spec fn spec_name_unusable(name: Seq<char>) -> bool {
    name.len() == 0 || name == seq!['.'] || name == seq!['.', '.']
}

/// The extension of `s`: the part of the file name after its last `.`,
/// provided that dot is not the file name's first character. `None` when
/// the file name is unusable or has no such dot.
pub open spec fn spec_extension(s: Seq<char>) -> Option<Seq<char>> {
    if spec_name_unusable(spec_file_name(s)) {
        None
    } else {
        match spec_last_dot_after(s, spec_name_start(s)) {
            Some(d) => Some(s.subrange(d + 1, s.len() as int)),
            None => None,
        }
    }
}

/// The stem of `s`: the file name minus its extension (and minus the dot
/// separating the two). `None` when the file name is unusable.
pub open spec fn spec_file_stem(s: Seq<char>) -> Option<Seq<char>> {
    if spec_name_unusable(spec_file_name(s)) {
        None
    } else {
        match spec_last_dot_after(s, spec_name_start(s)) {
            Some(d) => Some(s.subrange(spec_name_start(s), d)),
            None => Some(spec_file_name(s)),
        }
    }
}

/// Whether `s` ends in the theme-file extension, compared exactly.
pub open spec fn spec_is_theme_path(s: Seq<char>) -> bool {
    spec_extension(s) == Some("tmTheme"@)
}

/// A path with the theme-file extension always yields a stem.
pub proof fn lemma_theme_path_has_stem(s: Seq<char>)
    requires
        spec_is_theme_path(s),
    ensures
        spec_file_stem(s) is Some,
{
}

/// Finds where the file name of `path` starts.
fn find_name_start(path: &str) -> (i: usize)
    ensures
        i as int == spec_name_start(path@),
{
    let len = path.unicode_len();
    let mut i: usize = len;
    while i > 0 && path.get_char(i - 1) != '/'
        invariant
            0 <= i <= len,
            len == path@.len(),
            forall|j: int| i <= j < len ==> path@[j] != '/',
        decreases i,
    {
        i = i - 1;
    }
    proof {
        lemma_name_start(path@);
        let ns = spec_name_start(path@);
        if i < ns {
            assert(path@[ns - 1] == '/');
            assert(path@[ns - 1] != '/');
        }
        if i > ns {
            assert(path@[i - 1] == '/');
            assert(path@[i - 1] != '/');
        }
    }
    i
}

/// Finds the last `'.'` of `path` strictly after `start`.
fn find_last_dot_after(path: &str, start: usize) -> (r: Option<usize>)
    ensures
        match r {
            Some(d) => spec_last_dot_after(path@, start as int) == Some(d as int),
            None => spec_last_dot_after(path@, start as int) is None,
        },
{
    let len = path.unicode_len();
    let mut i: usize = len;
    while i > 0 && i - 1 > start && path.get_char(i - 1) != '.'
        invariant
            0 <= i <= len,
            len == path@.len(),
            forall|j: int| i <= j < len ==> path@[j] != '.',
        decreases i,
    {
        i = i - 1;
    }
    proof {
        lemma_last_dot_after(path@, start as int);
    }
    if i > 0 && i - 1 > start {
        // exited on a dot at i - 1
        proof {
            let d = i - 1;
            assert(path@[d as int] == '.');
            match spec_last_dot_after(path@, start as int) {
                Some(sd) => {
                    if sd < d as int {
                        assert(path@[d as int] != '.');
                    }
                    if sd > d as int {
                        assert(path@[sd] != '.');
                    }
                },
                None => {
                    assert(path@[d as int] != '.');
                },
            }
        }
        Some(i - 1)
    } else {
        proof {
            match spec_last_dot_after(path@, start as int) {
                Some(sd) => {
                    assert(path@[sd] != '.');
                },
                None => {},
            }
        }
        None
    }
}

/// Whether the file name of `path` is empty, `"."` or `".."`.
fn name_unusable(path: &str, ns: usize, len: usize) -> (r: bool)
    requires
        ns as int == spec_name_start(path@),
        len == path@.len(),
    ensures
        r == spec_name_unusable(spec_file_name(path@)),
{
    let ghost name = spec_file_name(path@);
    proof {
        lemma_name_start(path@);
        assert(name.len() == len - ns);
        assert(forall|j: int| 0 <= j < name.len() ==> name[j] == path@[ns + j]);
    }
    if len - ns == 0 {
        true
    } else if len - ns == 1 && path.get_char(ns) == '.' {
        proof {
            assert(name =~= seq!['.']);
        }
        true
    } else if len - ns == 2 && path.get_char(ns) == '.' && path.get_char(ns + 1) == '.' {
        proof {
            assert(name =~= seq!['.', '.']);
        }
        true
    } else {
        proof {
            assert(name.len() != 0);
            if name == seq!['.'] {
                assert(name[0] == '.');
                assert(path@[ns as int] == '.');
            }
            if name == seq!['.', '.'] {
                assert(name[0] == '.' && name[1] == '.');
                assert(path@[ns as int] == '.' && path@[ns + 1] == '.');
            }
        }
        false
    }
}

/// The extension of `path`, per `spec_extension`.
pub fn extension_of(path: &str) -> (r: Option<String>)
    ensures
        match r {
            Some(e) => spec_extension(path@) == Some(e@),
            None => spec_extension(path@) is None,
        },
{
    let len = path.unicode_len();
    let ns = find_name_start(path);
    proof {
        lemma_name_start(path@);
    }
    if name_unusable(path, ns, len) {
        return None;
    }
    match find_last_dot_after(path, ns) {
        Some(d) => {
            proof {
                lemma_last_dot_after(path@, ns as int);
            }
            Some(path.substring_char(d + 1, len).to_owned())
        },
        None => None,
    }
}

/// The stem of `path`, per `spec_file_stem`.
pub fn file_stem_of(path: &str) -> (r: Option<String>)
    ensures
        match r {
            Some(e) => spec_file_stem(path@) == Some(e@),
            None => spec_file_stem(path@) is None,
        },
{
    let len = path.unicode_len();
    let ns = find_name_start(path);
    proof {
        lemma_name_start(path@);
    }
    if name_unusable(path, ns, len) {
        return None;
    }
    match find_last_dot_after(path, ns) {
        Some(d) => {
            proof {
                lemma_last_dot_after(path@, ns as int);
            }
            Some(path.substring_char(ns, d).to_owned())
        },
        None => Some(path.substring_char(ns, len).to_owned()),
    }
}

/// Whether `path` ends in the theme-file extension, compared exactly.
pub fn is_theme_path(path: &str) -> (r: bool)
    ensures
        r == spec_is_theme_path(path@),
{
    match extension_of(path) {
        Some(e) => e.eq(&"tmTheme".to_owned()),
        None => false,
    }
}

/// The sub-sequence of `paths` that end in the theme-file extension, in
/// their original order.
pub open spec fn spec_filter_theme_paths(paths: Seq<String>) -> Seq<String> {
    paths.filter(|p: String| spec_is_theme_path(p@))
}

/// Keeps exactly the paths that end in the theme-file extension, in their
/// original order.
pub fn filter_theme_paths(paths: Vec<String>) -> (r: Vec<String>)
    ensures
        r@ == spec_filter_theme_paths(paths@),
{
    let ghost pred = |p: String| spec_is_theme_path(p@);
    let mut out: Vec<String> = Vec::new();
    let mut i: usize = 0;
    proof {
        assert(paths@.take(0) =~= Seq::<String>::empty());
        reveal(Seq::filter);
    }
    while i < paths.len()
        invariant
            0 <= i <= paths.len(),
            out@ == paths@.take(i as int).filter(pred),
            pred == (|p: String| spec_is_theme_path(p@)),
        decreases paths.len() - i,
    {
        proof {
            reveal(Seq::filter);
            assert(paths@.take(i + 1).drop_last() =~= paths@.take(i as int));
            assert(paths@.take(i + 1).last() == paths@[i as int]);
        }
        if is_theme_path(paths[i].as_str()) {
            out.push(paths[i].clone());
        }
        i = i + 1;
    }
    proof {
        assert(paths@.take(i as int) =~= paths@);
    }
    out
}

} // verus!
