//! The generic settings tree: the output of the structured-document parser
//! and the input of the theme validator. Dictionaries keep their entries as
//! a sequence of key/value pairs in document order; lookup returns the
//! first entry with a matching key.

use vstd::prelude::*;

verus! {

/// One node of a parsed settings document: a dictionary, an array, or a
/// scalar. Scalar kinds that the theme validator never reads (binary data,
/// dates, reals, and integers too wide for `i64`) are collapsed into
/// `Other`.
pub enum Settings {
    Dict(Vec<(String, Settings)>),
    Array(Vec<Settings>),
    Str(String),
    Bool(bool),
    Int(i64),
    Other,
}

/// The value under `key` in a dictionary's entry list: the first entry
/// whose key matches, if any.
pub open spec fn spec_lookup(entries: Seq<(String, Settings)>, key: Seq<char>) -> Option<Settings>
    decreases entries.len(),
{
    if entries.len() == 0 {
        None
    } else if entries[0].0@ == key {
        Some(entries[0].1)
    } else {
        spec_lookup(entries.drop_first(), key)
    }
}

proof fn lemma_lookup_step(entries: Seq<(String, Settings)>, key: Seq<char>, i: int)
    requires
        0 <= i < entries.len(),
        entries.skip(i)[0].0@ != key,
    ensures
        spec_lookup(entries.skip(i), key) == spec_lookup(entries.skip(i + 1), key),
{
    assert(entries.skip(i).drop_first() =~= entries.skip(i + 1));
}

/// Finds the value stored under `key`, scanning the entries in order and
/// returning the first match.
pub fn lookup<'a>(entries: &'a Vec<(String, Settings)>, key: &String) -> (r: Option<&'a Settings>)
    ensures
        match r {
            Some(v) => spec_lookup(entries@, key@) == Some(*v),
            None => spec_lookup(entries@, key@) is None,
        },
{
    let ghost all = entries@;
    proof {
        assert(all.skip(0) =~= all);
    }
    let mut i: usize = 0;
    while i < entries.len()
        invariant
            0 <= i <= entries.len(),
            all == entries@,
            spec_lookup(all, key@) == spec_lookup(all.skip(i as int), key@),
        decreases entries.len() - i,
    {
        assert(all.skip(i as int)[0] == all[i as int]);
        if entries[i].0.eq(key) {
            return Some(&entries[i].1);
        }
        proof {
            lemma_lookup_step(all, key@, i as int);
        }
        i = i + 1;
    }
    assert(all.skip(i as int) =~= Seq::<(String, Settings)>::empty());
    None
}

} // verus!
