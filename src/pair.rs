//! Splitting a string such as `"400x600"` or `"1.0,0.5"` into two halves at a
//! separator character, and parsing each half.

use vstd::prelude::*;

verus! {

/// `s` is `left`, then `sep`, then `right`, with no `sep` inside `left`:
/// the split of `s` at the first occurrence of `sep`.
pub open spec fn splits_at_first(s: Seq<char>, sep: char, left: Seq<char>, right: Seq<char>) -> bool {
    &&& s == left + seq![sep] + right
    &&& !left.contains(sep)
}

/// Index, in characters, of the first occurrence of `sep` in `s`.
pub fn find_char(s: &str, sep: char) -> (r: Option<usize>)
    ensures
        match r {
            None => !s@.contains(sep),
            Some(i) => i < s@.len() && s@[i as int] == sep && !s@.take(i as int).contains(sep),
        },
{
    let n = s.unicode_len();
    let mut i: usize = 0;
    while i < n
        invariant
            n == s@.len(),
            i <= n,
            forall|j: int| 0 <= j < i ==> s@[j] != sep,
        decreases n - i,
    {
        if s.get_char(i) == sep {
            proof {
                assert forall|j: int| 0 <= j < s@.take(i as int).len() implies s@.take(i as int)[j] != sep by {}
            }
            return Some(i);
        }
        i = i + 1;
    }
    proof {
        assert forall|j: int| 0 <= j < s@.len() implies s@[j] != sep by {}
    }
    None
}

/// Splits `s` at the first occurrence of `sep` into the text before it and
/// the text after it. A second `sep` stays inside the right half.
pub fn split_pair(s: &str, sep: char) -> (r: Option<(&str, &str)>)
    ensures
        match r {
            None => !s@.contains(sep),
            Some((left, right)) => splits_at_first(s@, sep, left@, right@),
        },
{
    match find_char(s, sep) {
        None => None,
        Some(i) => {
            let n = s.unicode_len();
            let left = s.substring_char(0, i);
            let right = s.substring_char(i + 1, n);
            proof {
                assert(s@ =~= left@ + seq![sep] + right@);
                assert(left@ =~= s@.take(i as int));
            }
            Some((left, right))
        },
    }
}

/// Relies on std's `FromStr::from_str` for `T`: the parsed value, or `None`
/// where the text is not one. Nothing is stated of the value itself.
#[verifier::external_body]
fn parse_half<T: core::str::FromStr>(s: &str) -> (r: Option<T>) {
    s.parse::<T>().ok()
}

/// The pair of two parse results, present exactly when both are.
pub open spec fn joined<T>(left: Option<T>, right: Option<T>) -> Option<(T, T)> {
    match (left, right) {
        (Some(a), Some(b)) => Some((a, b)),
        _ => None,
    }
}

/// Joins two parse results: a pair exactly when both halves parsed.
pub fn join_halves<T>(left: Option<T>, right: Option<T>) -> (r: Option<(T, T)>)
    ensures
        r == joined(left, right),
{
    match (left, right) {
        (Some(a), Some(b)) => Some((a, b)),
        _ => None,
    }
}

/// Parses `s` as `<left><separator><right>`, both halves by `T::from_str`,
/// e.g. `"400x600"` with `'x'` or `"1.0,0.5"` with `','`. `None` where the
/// separator is absent or either half does not parse.
pub fn parse_pair<T: core::str::FromStr>(s: &str, separator: char) -> (r: Option<(T, T)>)
    ensures
        r is Some ==> s@.contains(separator),
{
    match split_pair(s, separator) {
        None => None,
        Some((left, right)) => {
            proof {
                assert(s@[left@.len() as int] == separator);
            }
            join_halves(parse_half::<T>(left), parse_half::<T>(right))
        },
    }
}

} // verus!
