use vstd::prelude::*;
use vstd::string::StrSliceExecFns;

use crate::error::Error;

verus! {

/// `s` ends with the suffix `t`.
pub open spec fn ends_with(s: Seq<char>, t: Seq<char>) -> bool {
    t.len() <= s.len() && s.subrange(s.len() - t.len(), s.len() as int) == t
}

/// The view of an optional string.
pub open spec fn opt_view(o: Option<String>) -> Option<Seq<char>> {
    match o {
        Some(s) => Some(s@),
        None => None,
    }
}

/// The characters that a byte sequence decodes to under UTF-8, or `None`
/// when the bytes are not valid UTF-8.
pub uninterp spec fn utf8_view_of(data: Seq<u8>) -> Option<Seq<char>>;

/// Relies on core::str::from_utf8: decodes bytes as UTF-8; the result is a
/// function of the bytes alone.
#[verifier::external_body]
pub(crate) fn utf8_str(data: &[u8]) -> (r: Result<&str, Error>)
    ensures
        match r {
            Ok(s) => utf8_view_of(data@) == Some(s@),
            Err(e) => utf8_view_of(data@) is None && e is Io,
        },
{
    match core::str::from_utf8(data) {
        Ok(s) => Ok(s),
        Err(e) => Err(Error::Io(e.to_string())),
    }
}

/// The views of a sequence of strings.
pub open spec fn views_of(parts: Seq<String>) -> Seq<Seq<char>> {
    parts.map_values(|p: String| p@)
}

/// The views of a table of strings.
pub open spec fn table_views_of(rows: Seq<Vec<String>>) -> Seq<Seq<Seq<char>>> {
    rows.map_values(|r: Vec<String>| views_of(r@))
}

/// Whether `s` ends with the suffix `t`, compared character by character.
pub fn str_ends_with(s: &str, t: &str) -> (r: bool)
    ensures
        r == ends_with(s@, t@),
{
    let n = s.unicode_len();
    let m = t.unicode_len();
    if m > n {
        return false;
    }
    let mut i: usize = 0;
    while i < m
        invariant
            m <= n,
            n == s@.len(),
            m == t@.len(),
            i <= m,
            forall|j: int| 0 <= j < i ==> s@[n - m + j] == t@[j],
        decreases m - i,
    {
        if s.get_char(n - m + i) != t.get_char(i) {
            proof {
                assert(s@.subrange(n - m, n as int)[i as int] == s@[n - m + i]);
            }
            return false;
        }
        i = i + 1;
    }
    proof {
        assert(s@.subrange(n - m, n as int) =~= t@);
    }
    true
}

/// Whether two string slices hold the same characters.
pub fn str_eq(s: &str, t: &str) -> (r: bool)
    ensures
        r == (s@ == t@),
{
    let n = s.unicode_len();
    let m = t.unicode_len();
    if n != m {
        return false;
    }
    let mut i: usize = 0;
    while i < n
        invariant
            n == m,
            n == s@.len(),
            m == t@.len(),
            i <= n,
            forall|j: int| 0 <= j < i ==> s@[j] == t@[j],
        decreases n - i,
    {
        if s.get_char(i) != t.get_char(i) {
            return false;
        }
        i = i + 1;
    }
    proof {
        assert(s@ =~= t@);
    }
    true
}

/// Splitting `s` at every occurrence of `sep`: the tokens between separators,
/// in order, with empty tokens preserved. The result always holds at least
/// one token; a sequence without separators yields itself as the only token.
pub open spec fn spec_split(s: Seq<char>, sep: char) -> Seq<Seq<char>>
    decreases s.len(),
    via spec_split_decreases
{
    match s.index_of_first(sep) {
        None => seq![s],
        Some(i) => seq![s.subrange(0, i)] + spec_split(s.subrange(i + 1, s.len() as int), sep),
    }
}

#[via_fn]
proof fn spec_split_decreases(s: Seq<char>, sep: char) {
    s.index_of_first_ensures(sep);
}

/// A sequence without separators splits into itself alone.
proof fn lemma_split_whole(s: Seq<char>, sep: char)
    requires
        forall|j: int| 0 <= j < s.len() ==> s[j] != sep,
    ensures
        spec_split(s, sep) == seq![s],
{
    s.index_of_first_ensures(sep);
    if s.index_of_first(sep) is Some {
        assert(false);
    }
}

/// Splitting at the first separator peels off the leading token.
proof fn lemma_split_step(s: Seq<char>, sep: char, k: int)
    requires
        0 <= k < s.len(),
        s[k] == sep,
        forall|j: int| 0 <= j < k ==> s[j] != sep,
    ensures
        spec_split(s, sep) == seq![s.subrange(0, k)] + spec_split(
            s.subrange(k + 1, s.len() as int),
            sep,
        ),
{
    s.index_of_first_ensures(sep);
    assert(s.contains(sep)) by {
        assert(0 <= k < s.len() && s[k] == sep);
    }
    let i = s.index_of_first(sep).unwrap();
    assert(i == k);
}

/// Splits `s` at every occurrence of `sep`, preserving empty tokens.
pub fn split_char(s: &str, sep: char) -> (parts: Vec<String>)
    ensures
        views_of(parts@) == spec_split(s@, sep),
        parts@.len() >= 1,
{
    let n = s.unicode_len();
    let mut parts: Vec<String> = Vec::new();
    proof {
        assert(s@.subrange(0, n as int) =~= s@);
        assert(views_of(parts@) =~= Seq::<Seq<char>>::empty());
        assert(views_of(parts@) + spec_split(s@, sep) =~= spec_split(s@, sep));
    }
    let mut start: usize = 0;
    let mut k: usize = 0;
    while k < n
        invariant
            n == s@.len(),
            start <= k <= n,
            forall|j: int| start <= j < k ==> s@[j] != sep,
            spec_split(s@, sep) == views_of(parts@) + spec_split(
                s@.subrange(start as int, n as int),
                sep,
            ),
        decreases n - k,
    {
        let c = s.get_char(k);
        if c == sep {
            let token = s.substring_char(start, k).to_owned();
            proof {
                let suffix = s@.subrange(start as int, n as int);
                lemma_split_step(suffix, sep, k - start);
                assert(suffix.subrange(0, k - start) =~= s@.subrange(start as int, k as int));
                assert(suffix.subrange(k - start + 1, suffix.len() as int) =~= s@.subrange(
                    k + 1,
                    n as int,
                ));
            }
            let ghost prev = parts@;
            parts.push(token);
            proof {
                assert(views_of(parts@) =~= views_of(prev).push(token@));
                assert(views_of(prev) + seq![s@.subrange(start as int, k as int)]
                    =~= views_of(parts@));
            }
            start = k + 1;
        }
        k = k + 1;
    }
    let token = s.substring_char(start, n).to_owned();
    proof {
        lemma_split_whole(s@.subrange(start as int, n as int), sep);
    }
    let ghost prev = parts@;
    parts.push(token);
    proof {
        assert(views_of(parts@) =~= views_of(prev).push(token@));
        assert(views_of(prev) + seq![s@.subrange(start as int, n as int)] =~= views_of(parts@));
    }
    parts
}

} // verus!
