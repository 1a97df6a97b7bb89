//! Parsing of "10,20"-style value pairs from command-line text.

use std::str::FromStr;
use vstd::prelude::*;

verus! {

/// Position of the first occurrence of `separator` in `s`, scanning
/// left to right over the characters, if it occurs at all.
pub fn find_char(s: &str, separator: char) -> (r: Option<usize>)
    ensures
        match r {
            Some(i) => i < s@.len() && s@[i as int] == separator && (forall|j: int|
                0 <= j < i ==> s@[j] != separator),
            None => forall|j: int| 0 <= j < s@.len() ==> s@[j] != separator,
        },
{
    let n = s.unicode_len();
    let mut i: usize = 0;
    while i < n
        invariant
            n == s@.len(),
            i <= n,
            forall|j: int| 0 <= j < i ==> s@[j] != separator,
        decreases n - i,
    {
        if s.get_char(i) == separator {
            return Some(i);
        }
        i = i + 1;
    }
    None
}

/// Relies on std's `FromStr::from_str` to read one value of `T` from the
/// whole string; `None` exactly where that parse fails.
#[verifier::external_body]
fn parse_str_value<T: FromStr>(s: &str) -> (r: Option<T>) {
    match T::from_str(s) {
        Ok(v) => Some(v),
        Err(_) => None,
    }
}

/// Combines the two parsed halves of a pair: a pair exactly when both
/// halves parsed, holding the two values in order.
pub fn pair_of_parts<T>(left: Option<T>, right: Option<T>) -> (r: Option<(T, T)>)
    ensures
        match (left, right) {
            (Some(l), Some(v)) => r == Some((l, v)),
            _ => r is None,
        },
{
    match (left, right) {
        (Some(l), Some(v)) => Some((l, v)),
        _ => None,
    }
}

/// Parses a pair such as image dimensions "400x600" or a coordinate pair
/// "-1.2,0.35": the text before and after the first `separator` must each
/// read as one `T`. Without a separator there is no pair.
#[allow(non_snake_case)]
pub fn ParsePair<T: FromStr>(s: &str, separator: char) -> (r: Option<(T, T)>)
    ensures
        (forall|j: int| 0 <= j < s@.len() ==> s@[j] != separator) ==> r is None,
        r is Some ==> exists|j: int| 0 <= j < s@.len() && s@[j] == separator,
{
    match find_char(s, separator) {
        None => None,
        Some(index) => {
            let n = s.unicode_len();
            let left = s.substring_char(0, index);
            let right = s.substring_char(index + 1, n);
            pair_of_parts(parse_str_value(left), parse_str_value(right))
        },
    }
}

} // verus!
