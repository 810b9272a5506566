//! Splitting a plot name into its `_`-separated fields.

use vstd::prelude::*;

verus! {

/// The segments of `s` between occurrences of `sep`, in order, as
/// `str::split` yields them: always at least one segment, and empty
/// segments are kept.
pub open spec fn split_on(s: Seq<char>, sep: char) -> Seq<Seq<char>>
    decreases s.len(),
{
    if s.len() == 0 {
        seq![Seq::<char>::empty()]
    } else if s[0] == sep {
        seq![Seq::<char>::empty()] + split_on(s.skip(1), sep)
    } else {
        let rest = split_on(s.skip(1), sep);
        seq![seq![s[0]] + rest[0]] + rest.skip(1)
    }
}

/// Text without the separator splits into itself alone.
proof fn lemma_split_on_none(s: Seq<char>, sep: char)
    requires
        forall|k: int| 0 <= k < s.len() ==> s[k] != sep,
    ensures
        split_on(s, sep) == seq![s],
    decreases s.len(),
{
    if s.len() == 0 {
        assert(split_on(s, sep) =~~= seq![s]);
    } else {
        lemma_split_on_none(s.skip(1), sep);
        let rest = split_on(s.skip(1), sep);
        assert(rest[0] == s.skip(1));
        assert(seq![s[0]] + s.skip(1) =~= s);
        assert(rest.skip(1) =~= Seq::<Seq<char>>::empty());
        assert(split_on(s, sep) =~~= seq![s]);
    }
}

/// If position `j` holds the first separator, the first segment is the text
/// before it and the remaining segments split the text after it.
proof fn lemma_split_on_first(s: Seq<char>, sep: char, j: int)
    requires
        0 <= j < s.len(),
        s[j] == sep,
        forall|k: int| 0 <= k < j ==> s[k] != sep,
    ensures
        split_on(s, sep) == seq![s.take(j)] + split_on(s.skip(j + 1), sep),
    decreases j,
{
    if j == 0 {
        assert(s.take(0) =~= Seq::<char>::empty());
        assert(s.skip(1) =~= s.skip(j + 1));
        assert(split_on(s, sep) =~~= seq![s.take(j)] + split_on(s.skip(j + 1), sep));
    } else {
        let rest = split_on(s.skip(1), sep);
        lemma_split_on_first(s.skip(1), sep, j - 1);
        assert(s.skip(1).take(j - 1) =~= s.subrange(1, j));
        assert(s.skip(1).skip(j) =~= s.skip(j + 1));
        assert(rest == seq![s.subrange(1, j)] + split_on(s.skip(j + 1), sep));
        assert(rest[0] == s.subrange(1, j));
        assert(seq![s[0]] + s.subrange(1, j) =~= s.take(j));
        assert(rest.skip(1) =~= split_on(s.skip(j + 1), sep));
        assert(split_on(s, sep) =~~= seq![s.take(j)] + split_on(s.skip(j + 1), sep));
    }
}

/// Index of the first occurrence of `sep` in `s`, if any.
fn find_char(s: &str, sep: char) -> (r: Option<usize>)
    ensures
        match r {
            Some(j) => {
                &&& j < s@.len()
                &&& s@[j as int] == sep
                &&& forall|k: int| 0 <= k < j ==> s@[k] != sep
            },
            None => forall|k: int| 0 <= k < s@.len() ==> s@[k] != sep,
        },
{
    let len = s.unicode_len();
    let mut j: usize = 0;
    while j < len
        invariant
            j <= len,
            len == s@.len(),
            forall|k: int| 0 <= k < j ==> s@[k] != sep,
        decreases len - j,
    {
        if s.get_char(j) == sep {
            return Some(j);
        }
        j = j + 1;
    }
    None
}

/// Splits `s` on `sep` exactly as `str::split` does.
pub fn split_char(s: &str, sep: char) -> (parts: Vec<String>)
    ensures
        parts.deep_view() == split_on(s@, sep),
    decreases s@.len(),
{
    let len = s.unicode_len();
    match find_char(s, sep) {
        None => {
            let part = s.substring_char(0, len).to_owned();
            let mut parts: Vec<String> = Vec::new();
            parts.push(part);
            proof {
                lemma_split_on_none(s@, sep);
                assert(s@.subrange(0, len as int) =~= s@);
                assert(parts.deep_view() =~~= seq![s@]);
            }
            parts
        },
        Some(j) => {
            let first = s.substring_char(0, j).to_owned();
            let rest_str = s.substring_char(j + 1, len);
            proof {
                assert(rest_str@ =~= s@.skip(j + 1));
            }
            let mut parts = split_char(rest_str, sep);
            parts.insert(0, first);
            proof {
                lemma_split_on_first(s@, sep, j as int);
                assert(first@ =~= s@.take(j as int));
                assert(parts.deep_view() =~~= seq![s@.take(j as int)] + split_on(
                    s@.skip(j + 1),
                    sep,
                ));
            }
            parts
        },
    }
}

} // verus!
