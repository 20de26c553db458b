//! Pattern matching through the `regex` crate.
use vstd::prelude::*;

use crate::text::{char_index_at_byte, char_index_of, chars_of, slice};

verus! {

/// What compiling `pattern` with `regex::Regex::new` and then walking
/// `captures_iter` over `text` yields: `None` when the pattern does not
/// compile; otherwise, for each match in order, its byte range and the byte
/// range of capture group 1 when that group took part in the match.
pub uninterp spec fn regex_captures(pattern: Seq<char>, text: Seq<char>) -> Option<
    Seq<(usize, usize, Option<(usize, usize)>)>,
>;

/// Calls `regex::Regex::new` and `Regex::captures_iter`; the list of matches
/// is named `regex_captures` of the pattern and the text. Nothing more is
/// stated of it here.
#[verifier::external_body]
pub(crate) fn captures_all(pattern: &str, text: &str) -> (r: Option<
    Vec<(usize, usize, Option<(usize, usize)>)>,
>)
    ensures
        (r is Some) == (regex_captures(pattern@, text@) is Some),
        r matches Some(v) ==> regex_captures(pattern@, text@) == Some(v@),
{
    let re = regex::Regex::new(pattern).ok()?;
    Some(
        re.captures_iter(text).map(
            |c| (c.get_match().start(), c.get_match().end(), c.get(1).map(|g| (g.start(), g.end()))),
        ).collect(),
    )
}

/// The matches of `pattern` in `text`, none when the pattern does not compile.
pub open spec fn matches_of(pattern: Seq<char>, text: Seq<char>) -> Seq<
    (usize, usize, Option<(usize, usize)>),
> {
    match regex_captures(pattern, text) {
        Some(ms) => ms,
        None => seq![],
    }
}

pub fn matches_in(pattern: &str, text: &str) -> (r: Vec<(usize, usize, Option<(usize, usize)>)>)
    ensures
        r@ == matches_of(pattern@, text@),
{
    match captures_all(pattern, text) {
        Some(v) => v,
        None => Vec::new(),
    }
}

/// Character range of the byte range `b0..b1` of `s`, when both ends fall on
/// character boundaries in order.
pub open spec fn char_range_of(s: Seq<char>, b0: int, b1: int) -> Option<(int, int)> {
    match (char_index_of(s, b0), char_index_of(s, b1)) {
        (Some(a), Some(b)) => if a <= b {
            Some((a, b))
        } else {
            None
        },
        _ => None,
    }
}

pub fn char_range(v: &Vec<char>, b0: usize, b1: usize) -> (r: Option<(usize, usize)>)
    ensures
        r == (match char_range_of(v@, b0 as int, b1 as int) {
            Some((a, b)) => Some((a as usize, b as usize)),
            None => None::<(usize, usize)>,
        }),
        r matches Some((a, b)) ==> a <= b <= v.len(),
{
    match (char_index_at_byte(v, b0), char_index_at_byte(v, b1)) {
        (Some(a), Some(b)) => if a <= b {
            Some((a, b))
        } else {
            None
        },
        _ => None,
    }
}

/// The text of byte range `b0..b1` of `s` (empty when the range is not on
/// character boundaries).
pub open spec fn text_of_range(s: Seq<char>, b0: int, b1: int) -> Seq<char> {
    match char_range_of(s, b0, b1) {
        Some((a, b)) => s.subrange(a, b),
        None => seq![],
    }
}

pub fn range_text(v: &Vec<char>, b0: usize, b1: usize) -> (r: Vec<char>)
    ensures
        r@ == text_of_range(v@, b0 as int, b1 as int),
{
    match char_range(v, b0, b1) {
        Some((a, b)) => slice(v, a, b),
        None => Vec::new(),
    }
}

/// Text of group 1 of the first of the matches `ms` found in `text`, if
/// that group took part.
pub open spec fn group_of_s(ms: Seq<(usize, usize, Option<(usize, usize)>)>, text: Seq<char>) -> Option<
    Seq<char>,
> {
    if ms.len() > 0 {
        match ms[0].2 {
            Some((g0, g1)) => match char_range_of(text, g0 as int, g1 as int) {
                Some((a, b)) => Some(text.subrange(a, b)),
                None => None,
            },
            None => None,
        }
    } else {
        None
    }
}

/// Text of group 1 of the first match, if the pattern matches with group 1.
pub open spec fn first_group_s(pattern: Seq<char>, text: Seq<char>) -> Option<Seq<char>> {
    group_of_s(matches_of(pattern, text), text)
}

/// Group 1 of the first of the matches `ms` of `text` (see `group_of_s`).
pub fn group_of(text: &str, ms: &Vec<(usize, usize, Option<(usize, usize)>)>) -> (r: Option<Vec<char>>)
    ensures
        r matches Some(g) ==> group_of_s(ms@, text@) == Some(g@),
        r is None ==> group_of_s(ms@, text@) is None,
{
    if ms.len() == 0 {
        return None;
    }
    let v = chars_of(text);
    match ms[0].2 {
        Some((g0, g1)) => match char_range(&v, g0, g1) {
            Some((a, b)) => Some(slice(&v, a, b)),
            None => None,
        },
        None => None,
    }
}

/// `Regex::captures(text).map(|m| m[1])` on the first match.
pub fn first_group(pattern: &str, text: &str) -> (r: Option<Vec<char>>)
    ensures
        r matches Some(g) ==> first_group_s(pattern@, text@) == Some(g@),
        r is None ==> first_group_s(pattern@, text@) is None,
{
    let ms = matches_in(pattern, text);
    group_of(text, &ms)
}

/// Character range of the first of the matches `ms` found in `text`.
pub open spec fn match_of_s(ms: Seq<(usize, usize, Option<(usize, usize)>)>, text: Seq<char>) -> Option<
    (int, int),
> {
    if ms.len() > 0 {
        char_range_of(text, ms[0].0 as int, ms[0].1 as int)
    } else {
        None
    }
}

/// Character range of the first whole match.
pub open spec fn first_match_s(pattern: Seq<char>, text: Seq<char>) -> Option<(int, int)> {
    match_of_s(matches_of(pattern, text), text)
}

/// The first of the matches `ms` of `text` as a character range.
pub fn match_of(text: &str, ms: &Vec<(usize, usize, Option<(usize, usize)>)>) -> (r: Option<
    (usize, usize),
>)
    ensures
        r == (match match_of_s(ms@, text@) {
            Some((a, b)) => Some((a as usize, b as usize)),
            None => None::<(usize, usize)>,
        }),
        r matches Some((a, b)) ==> a <= b <= text@.len(),
{
    if ms.len() == 0 {
        return None;
    }
    let v = chars_of(text);
    char_range(&v, ms[0].0, ms[0].1)
}

/// `Regex::find(text)` as a character range.
pub fn first_match(pattern: &str, text: &str) -> (r: Option<(usize, usize)>)
    ensures
        r == (match first_match_s(pattern@, text@) {
            Some((a, b)) => Some((a as usize, b as usize)),
            None => None::<(usize, usize)>,
        }),
        r matches Some((a, b)) ==> a <= b <= text@.len(),
{
    let ms = matches_in(pattern, text);
    match_of(text, &ms)
}

} // verus!
