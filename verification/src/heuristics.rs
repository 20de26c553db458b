//! Reading a citation out of reference text without a language model: the
//! fields that cannot be found are left empty.
use vstd::prelude::*;

use crate::rx::{
    first_group, first_group_s, first_match, first_match_s, group_of, group_of_s, match_of,
    match_of_s, matches_in, matches_of,
};
use crate::store::{sviews, Citation, CitationModel};
use crate::styles::strip_end_char;
use crate::text::{
    char_index_at_byte, char_index_of, byte_len, chars_of, contains_char,
    contains_s, contains_str, has_char, lemma_take_full, lemma_take_step, lowercase_chars,
    lowercase_of, parse_small, parse_small_s, slice, starts_with_s, string_of, trim, trim_s,
    vviews,
};

verus! {

// ---------------------------------------------------------------------------
// Splitting and trimming by character sets
// ---------------------------------------------------------------------------

/// Pieces finished so far and the current piece, splitting at any
/// character of `set`.
pub open spec fn split_state(s: Seq<char>, set: Seq<char>) -> (Seq<Seq<char>>, Seq<char>)
    decreases s.len(),
{
    if s.len() == 0 {
        (seq![], seq![])
    } else {
        let (done, cur) = split_state(s.drop_last(), set);
        if has_char(set, s.last()) {
            (done.push(cur), seq![])
        } else {
            (done, cur.push(s.last()))
        }
    }
}

/// `str::split` at any character of `set` (empty pieces kept).
pub open spec fn split_set_s(s: Seq<char>, set: Seq<char>) -> Seq<Seq<char>> {
    split_state(s, set).0.push(split_state(s, set).1)
}

pub fn split_set(v: &Vec<char>, set: &str) -> (r: Vec<Vec<char>>)
    ensures
        vviews(r@) == split_set_s(v@, set@),
        r.len() >= 1,
{
    let sv = chars_of(set);
    let mut done: Vec<Vec<char>> = Vec::new();
    let mut cur: Vec<char> = Vec::new();
    let mut i: usize = 0;
    proof {
        assert(v@.take(0) =~= Seq::<char>::empty());
        assert(vviews(done@) =~= Seq::<Seq<char>>::empty());
    }
    while i < v.len()
        invariant
            0 <= i <= v.len(),
            sv@ == set@,
            (vviews(done@), cur@) == split_state(v@.take(i as int), set@),
        decreases v.len() - i,
    {
        proof {
            lemma_take_step(v@, i as int);
        }
        let c = v[i];
        if contains_char(&sv, c) {
            let ghost d0 = done@;
            let ghost c0 = cur@;
            done.push(cur);
            cur = Vec::new();
            proof {
                assert(vviews(done@) =~= vviews(d0).push(c0));
            }
        } else {
            cur.push(c);
        }
        i = i + 1;
    }
    proof {
        lemma_take_full(v@);
    }
    let ghost d0 = done@;
    let ghost c0 = cur@;
    done.push(cur);
    proof {
        assert(vviews(done@) =~= vviews(d0).push(c0));
    }
    done
}

/// The trimmed pieces that are not empty and have at most `max` characters.
pub open spec fn keep_names(ps: Seq<Seq<char>>, max: nat) -> Seq<Seq<char>>
    decreases ps.len(),
{
    if ps.len() == 0 {
        seq![]
    } else {
        let rest = keep_names(ps.drop_last(), max);
        let t = trim_s(ps.last());
        if t.len() > 0 && t.len() <= max {
            rest.push(t)
        } else {
            rest
        }
    }
}

pub fn keep_names_exec(ps: &Vec<Vec<char>>, max: usize) -> (r: Vec<String>)
    ensures
        sviews(r@) == keep_names(vviews(ps@), max as nat),
{
    let ghost pv = vviews(ps@);
    let mut r: Vec<String> = Vec::new();
    let mut i: usize = 0;
    proof {
        assert(sviews(r@) =~= Seq::<Seq<char>>::empty());
    }
    while i < ps.len()
        invariant
            0 <= i <= ps.len(),
            pv == vviews(ps@),
            pv.len() == ps.len(),
            sviews(r@) == keep_names(pv.take(i as int), max as nat),
        decreases ps.len() - i,
    {
        proof {
            lemma_take_step(pv, i as int);
            assert(pv[i as int] == ps@[i as int]@);
        }
        let t = trim(&ps[i]);
        if t.len() > 0 && t.len() <= max {
            let ghost r0 = r@;
            r.push(string_of(&t));
            proof {
                assert(sviews(r@) =~= sviews(r0).push(t@));
            }
        }
        i = i + 1;
    }
    proof {
        lemma_take_full(pv);
    }
    r
}

/// `trim_start_matches(p)`: every leading copy of `p` removed.
pub open spec fn strip_prefix_rep(s: Seq<char>, p: Seq<char>) -> Seq<char>
    decreases s.len(),
{
    if p.len() > 0 && starts_with_s(s, p) {
        strip_prefix_rep(s.subrange(p.len() as int, s.len() as int), p)
    } else {
        s
    }
}

pub fn strip_prefix_rep_exec(v: &Vec<char>, p: &str) -> (r: Vec<char>)
    ensures
        r@ == strip_prefix_rep(v@, p@),
{
    let pv = chars_of(p);
    let mut i: usize = 0;
    proof {
        assert(v@.subrange(0, v@.len() as int) =~= v@);
    }
    while pv.len() > 0 && i <= v.len() && crate::text::matches_at(v, &pv, i)
        invariant
            0 <= i <= v.len(),
            pv@ == p@,
            strip_prefix_rep(v@, p@) == strip_prefix_rep(v@.subrange(i as int, v@.len() as int), p@),
        decreases v.len() - i,
    {
        proof {
            let s = v@.subrange(i as int, v@.len() as int);
            assert(s.subrange(0, p@.len() as int) =~= v@.subrange(i as int, i + p@.len()));
            assert(starts_with_s(s, p@));
            assert(s.subrange(p@.len() as int, s.len() as int) =~= v@.subrange(
                i + p@.len(),
                v@.len() as int,
            ));
        }
        i = i + pv.len();
    }
    proof {
        let s = v@.subrange(i as int, v@.len() as int);
        if pv.len() > 0 {
            assert(!starts_with_s(s, p@)) by {
                if starts_with_s(s, p@) {
                    assert(s.subrange(0, p@.len() as int) =~= v@.subrange(
                        i as int,
                        i + p@.len(),
                    ));
                }
            }
        }
    }
    slice(v, i, v.len())
}

/// `trim_end_matches` with a set of characters.
pub open spec fn strip_end_set(s: Seq<char>, set: Seq<char>) -> Seq<char>
    decreases s.len(),
{
    if s.len() > 0 && has_char(set, s.last()) {
        strip_end_set(s.drop_last(), set)
    } else {
        s
    }
}

pub fn strip_end_set_exec(v: &Vec<char>, set: &str) -> (r: Vec<char>)
    ensures
        r@ == strip_end_set(v@, set@),
{
    let sv = chars_of(set);
    let mut j: usize = v.len();
    proof {
        lemma_take_full(v@);
    }
    while j > 0 && contains_char(&sv, v[j - 1])
        invariant
            0 <= j <= v.len(),
            sv@ == set@,
            strip_end_set(v@, set@) == strip_end_set(v@.take(j as int), set@),
        decreases j,
    {
        proof {
            assert(v@.take(j as int).drop_last() =~= v@.take(j - 1));
        }
        j = j - 1;
    }
    proof {
        assert(v@.take(j as int) =~= v@.subrange(0, j as int));
    }
    slice(v, 0, j)
}

/// `trim_start_matches` with a set of characters.
pub open spec fn strip_start_set(s: Seq<char>, set: Seq<char>) -> Seq<char>
    decreases s.len(),
{
    if s.len() > 0 && has_char(set, s[0]) {
        strip_start_set(s.subrange(1, s.len() as int), set)
    } else {
        s
    }
}

pub fn strip_start_set_exec(v: &Vec<char>, set: &str) -> (r: Vec<char>)
    ensures
        r@ == strip_start_set(v@, set@),
{
    let sv = chars_of(set);
    let mut i: usize = 0;
    proof {
        assert(v@.subrange(0, v@.len() as int) =~= v@);
    }
    while i < v.len() && contains_char(&sv, v[i])
        invariant
            0 <= i <= v.len(),
            sv@ == set@,
            strip_start_set(v@, set@) == strip_start_set(v@.subrange(i as int, v@.len() as int), set@),
        decreases v.len() - i,
    {
        proof {
            let s = v@.subrange(i as int, v@.len() as int);
            assert(s[0] == v@[i as int]);
            assert(s.subrange(1, s.len() as int) =~= v@.subrange(i + 1, v@.len() as int));
        }
        i = i + 1;
    }
    slice(v, i, v.len())
}

/// The text without the character `c` (`replace(c, "")`).
pub open spec fn remove_char_s(s: Seq<char>, c: char) -> Seq<char>
    decreases s.len(),
{
    if s.len() == 0 {
        seq![]
    } else if s.last() == c {
        remove_char_s(s.drop_last(), c)
    } else {
        remove_char_s(s.drop_last(), c).push(s.last())
    }
}

pub fn remove_char(v: &Vec<char>, c: char) -> (r: Vec<char>)
    ensures
        r@ == remove_char_s(v@, c),
{
    let mut r: Vec<char> = Vec::new();
    let mut i: usize = 0;
    proof {
        assert(v@.take(0) =~= Seq::<char>::empty());
    }
    while i < v.len()
        invariant
            0 <= i <= v.len(),
            r@ == remove_char_s(v@.take(i as int), c),
        decreases v.len() - i,
    {
        proof {
            lemma_take_step(v@, i as int);
        }
        if v[i] != c {
            r.push(v[i]);
        }
        i = i + 1;
    }
    proof {
        lemma_take_full(v@);
    }
    r
}

// ---------------------------------------------------------------------------
// Fields found by patterns
// ---------------------------------------------------------------------------

pub open spec fn year_pattern() -> Seq<char> {
    "(?:19|20)\\d{2}"@
}

/// The first four-digit year from 1900 to 2100 where the first
/// `19xx`/`20xx` run stands.
pub open spec fn first_year_from_s(t: Seq<char>, ms: Seq<(usize, usize, Option<(usize, usize)>)>) -> Option<i64> {
    match match_of_s(ms, t) {
        Some((a, b)) => match parse_small_s(t.subrange(a, b)) {
            Some(y) => if 1900 <= y <= 2100 {
                Some(y)
            } else {
                None
            },
            None => None,
        },
        None => None,
    }
}

pub open spec fn first_year_s(t: Seq<char>) -> Option<i64> {
    first_year_from_s(t, matches_of(year_pattern(), t))
}

/// The year the first of the matches `ms` of the year pattern in `text` spells, when it is from 1900 to 2100.
pub fn first_year_from(text: &str, ms: &Vec<(usize, usize, Option<(usize, usize)>)>) -> (r: Option<i64>)
    ensures
        r == first_year_from_s(text@, ms@),
{
    match match_of(text, ms) {
        Some((a, b)) => {
            let v = chars_of(text);
            let y = parse_small(&slice(&v, a, b));
            match y {
                Some(y) => if 1900 <= y && y <= 2100 {
                    Some(y)
                } else {
                    None
                },
                None => None,
            }
        },
        None => None,
    }
}

pub fn first_year(text: &str) -> (r: Option<i64>)
    ensures
        r == first_year_s(text@),
{
    let ms = matches_in("(?:19|20)\\d{2}", text);
    first_year_from(text, &ms)
}

pub open spec fn publisher_pattern() -> Seq<char> {
    "([一-龥]{2,15}(?:出版社|大学出版社|书局|出版公司))"@
}

/// `法律出版社 2021 年版` → `法律出版社`.
pub open spec fn publisher_s(t: Seq<char>) -> Option<Seq<char>> {
    first_group_s(publisher_pattern(), t)
}

fn publisher(text: &str) -> (r: Option<String>)
    ensures
        crate::store::ov(r) == publisher_s(text@),
{
    match first_group("([一-龥]{2,15}(?:出版社|大学出版社|书局|出版公司))", text) {
        Some(g) => Some(string_of(&g)),
        None => None,
    }
}

pub open spec fn issue_pattern() -> Seq<char> {
    "第\\s*(\\d{1,3})\\s*期"@
}

/// `2023 年第 2 期` → `(2)`.
pub open spec fn issue_number_from_s(t: Seq<char>, ms: Seq<(usize, usize, Option<(usize, usize)>)>) -> Option<Seq<char>> {
    match group_of_s(ms, t) {
        Some(g) => Some("("@ + g + ")"@),
        None => None,
    }
}

pub open spec fn issue_number_s(t: Seq<char>) -> Option<Seq<char>> {
    issue_number_from_s(t, matches_of(issue_pattern(), t))
}

/// The issue, in parentheses, from the first of the matches `ms` of the issue pattern in `text`.
pub fn issue_number_from(text: &str, ms: &Vec<(usize, usize, Option<(usize, usize)>)>) -> (r: Option<String>)
    ensures
        crate::store::ov(r) == issue_number_from_s(text@, ms@),
{
    match group_of(text, ms) {
        Some(g) => {
            let mut out = chars_of("(");
            crate::text::append(&mut out, &g);
            crate::text::append_str(&mut out, ")");
            Some(string_of(&out))
        },
        None => None,
    }
}

fn issue_number(text: &str) -> (r: Option<String>)
    ensures
        crate::store::ov(r) == issue_number_s(text@),
{
    let ms = matches_in("第\\s*(\\d{1,3})\\s*期", text);
    issue_number_from(text, &ms)
}

pub open spec fn chinese_page_pattern() -> Seq<char> {
    "第\\s*(\\d{1,6}(?:\\s*[-–—~]\\s*\\d{1,6})?)\\s*页"@
}

/// `第 55-72 页` → `55-72`.
pub open spec fn chinese_page_from_s(t: Seq<char>, ms: Seq<(usize, usize, Option<(usize, usize)>)>) -> Option<Seq<char>> {
    match group_of_s(ms, t) {
        Some(g) => Some(remove_char_s(g, ' ')),
        None => None,
    }
}

pub open spec fn chinese_page_s(t: Seq<char>) -> Option<Seq<char>> {
    chinese_page_from_s(t, matches_of(chinese_page_pattern(), t))
}

/// The pages, without spaces, from the first of the matches `ms` of the Chinese page pattern in `text`.
pub fn chinese_page_from(text: &str, ms: &Vec<(usize, usize, Option<(usize, usize)>)>) -> (r: Option<String>)
    ensures
        crate::store::ov(r) == chinese_page_from_s(text@, ms@),
{
    match group_of(text, ms) {
        Some(g) => Some(string_of(&remove_char(&g, ' '))),
        None => None,
    }
}

fn chinese_page(text: &str) -> (r: Option<String>)
    ensures
        crate::store::ov(r) == chinese_page_s(text@),
{
    let ms = matches_in("第\\s*(\\d{1,6}(?:\\s*[-–—~]\\s*\\d{1,6})?)\\s*页", text);
    chinese_page_from(text, &ms)
}

pub open spec fn volume_pattern() -> Seq<char> {
    "\\d{4}\\s*,\\s*([^:,，\\.]{1,20})"@
}

/// `2024, 3(2)` → `3(2)`.
pub open spec fn parse_volume_from_s(t: Seq<char>, ms: Seq<(usize, usize, Option<(usize, usize)>)>) -> Option<Seq<char>> {
    match group_of_s(ms, t) {
        Some(g) => if trim_s(g).len() > 0 {
            Some(trim_s(g))
        } else {
            None
        },
        None => None,
    }
}

pub open spec fn parse_volume_s(t: Seq<char>) -> Option<Seq<char>> {
    parse_volume_from_s(t, matches_of(volume_pattern(), t))
}

/// The trimmed volume, unless blank, from the first of the matches `ms` of the volume pattern in `text`.
pub fn parse_volume_from(text: &str, ms: &Vec<(usize, usize, Option<(usize, usize)>)>) -> (r: Option<String>)
    ensures
        crate::store::ov(r) == parse_volume_from_s(text@, ms@),
{
    match group_of(text, ms) {
        Some(g) => {
            let t = trim(&g);
            if t.len() > 0 {
                Some(string_of(&t))
            } else {
                None
            }
        },
        None => None,
    }
}

fn parse_volume(text: &str) -> (r: Option<String>)
    ensures
        crate::store::ov(r) == parse_volume_s(text@),
{
    let ms = matches_in("\\d{4}\\s*,\\s*([^:,，\\.]{1,20})", text);
    parse_volume_from(text, &ms)
}

pub open spec fn page_pattern() -> Seq<char> {
    ":\\s*([0-9]{1,6}\\s*[-–—]\\s*[0-9]{1,6})"@
}

/// `: 15 - 25` → `15-25`.
pub open spec fn parse_page_from_s(t: Seq<char>, ms: Seq<(usize, usize, Option<(usize, usize)>)>) -> Option<Seq<char>> {
    match group_of_s(ms, t) {
        Some(g) => Some(remove_char_s(g, ' ')),
        None => None,
    }
}

pub open spec fn parse_page_s(t: Seq<char>) -> Option<Seq<char>> {
    parse_page_from_s(t, matches_of(page_pattern(), t))
}

/// The pages, without spaces, from the first of the matches `ms` of the page pattern in `text`.
pub fn parse_page_from(text: &str, ms: &Vec<(usize, usize, Option<(usize, usize)>)>) -> (r: Option<String>)
    ensures
        crate::store::ov(r) == parse_page_from_s(text@, ms@),
{
    match group_of(text, ms) {
        Some(g) => Some(string_of(&remove_char(&g, ' '))),
        None => None,
    }
}

fn parse_page(text: &str) -> (r: Option<String>)
    ensures
        crate::store::ov(r) == parse_page_s(text@),
{
    let ms = matches_in(":\\s*([0-9]{1,6}\\s*[-–—]\\s*[0-9]{1,6})", text);
    parse_page_from(text, &ms)
}

pub open spec fn doi_pattern() -> Seq<char> {
    "(10\\.\\d{4,9}/[^\\s]+)"@
}

/// `10.1000/xyz.` → `10.1000/xyz`.
pub open spec fn parse_doi_from_s(t: Seq<char>, ms: Seq<(usize, usize, Option<(usize, usize)>)>) -> Option<Seq<char>> {
    match group_of_s(ms, t) {
        Some(g) => Some(strip_end_char(g, '.')),
        None => None,
    }
}

pub open spec fn parse_doi_s(t: Seq<char>) -> Option<Seq<char>> {
    parse_doi_from_s(t, matches_of(doi_pattern(), t))
}

/// The DOI, without trailing periods, from the first of the matches `ms` of the DOI pattern in `text`.
pub fn parse_doi_from(text: &str, ms: &Vec<(usize, usize, Option<(usize, usize)>)>) -> (r: Option<String>)
    ensures
        crate::store::ov(r) == parse_doi_from_s(text@, ms@),
{
    match group_of(text, ms) {
        Some(g) => {
            let mut j: usize = g.len();
            proof {
                lemma_take_full(g@);
            }
            while j > 0 && g[j - 1] == '.'
                invariant
                    0 <= j <= g.len(),
                    strip_end_char(g@, '.') == strip_end_char(g@.take(j as int), '.'),
                decreases j,
            {
                proof {
                    assert(g@.take(j as int).drop_last() =~= g@.take(j - 1));
                }
                j = j - 1;
            }
            proof {
                assert(g@.take(j as int) =~= g@.subrange(0, j as int));
            }
            Some(string_of(&slice(&g, 0, j)))
        },
        None => None,
    }
}

fn parse_doi(text: &str) -> (r: Option<String>)
    ensures
        crate::store::ov(r) == parse_doi_s(text@),
{
    let ms = matches_in("(10\\.\\d{4,9}/[^\\s]+)", text);
    parse_doi_from(text, &ms)
}

// ---------------------------------------------------------------------------
// Authors, title, venue of a GB/T 7714 style entry
// ---------------------------------------------------------------------------

/// Authors: the names before the first `.`, `。` or `[`, split at commas and
/// semicolons; none when that head is empty, longer than 120 characters,
/// has a year in it or a link.
pub open spec fn parse_authors_s(t: Seq<char>) -> Seq<Seq<char>> {
    let head = trim_s(split_set_s(t, ".。["@)[0]);
    if head.len() == 0 || head.len() > 120 {
        seq![]
    } else if first_year_s(head) is Some || contains_s(lowercase_of(head), "http"@) {
        seq![]
    } else {
        keep_names(split_set_s(head, ",，;；"@), 40)
    }
}

fn parse_authors(text: &Vec<char>) -> (r: Vec<String>)
    ensures
        sviews(r@) == parse_authors_s(text@),
{
    let pieces = split_set(text, ".。[");
    let head = trim(&pieces[0]);
    proof {
        assert(vviews(pieces@)[0] == pieces@[0]@);
    }
    if head.len() == 0 || head.len() > 120 {
        return Vec::new();
    }
    let hs = string_of(&head);
    if first_year(hs.as_str()).is_some() || contains_str(&lowercase_chars(&head), "http") {
        return Vec::new();
    }
    let names = split_set(&head, ",，;；");
    keep_names_exec(&names, 40)
}

pub open spec fn type_mark_pattern() -> Seq<char> {
    "\\[[A-Z/]{1,5}\\]"@
}

/// Among the pieces, the last longest one with at least 4 characters and
/// no year.
pub open spec fn longest_segment(ps: Seq<Seq<char>>) -> Seq<char>
    decreases ps.len(),
{
    if ps.len() == 0 {
        seq![]
    } else {
        let best = longest_segment(ps.drop_last());
        let t = trim_s(ps.last());
        if t.len() >= 4 && first_year_s(t) is None && t.len() >= best.len() {
            t
        } else {
            best
        }
    }
}

/// Title: with a type mark such as `[J]`, the last sentence before it;
/// otherwise the longest sentence of at least four characters that names
/// no year (the last such when several are as long).
pub open spec fn parse_title_from_s(t: Seq<char>, ms: Seq<(usize, usize, Option<(usize, usize)>)>) -> Seq<
    char,
> {
    let marked = match match_of_s(ms, t) {
        Some((a, _)) => trim_s(split_set_s(trim_s(t.subrange(0, a)), ".。"@).last()),
        None => seq![],
    };
    if marked.len() > 0 {
        marked
    } else {
        longest_segment(split_set_s(t, ".。"@))
    }
}

pub open spec fn parse_title_s(t: Seq<char>) -> Seq<char> {
    parse_title_from_s(t, matches_of(type_mark_pattern(), t))
}

fn longest_segment_exec(ps: &Vec<Vec<char>>) -> (r: Vec<char>)
    ensures
        r@ == longest_segment(vviews(ps@)),
{
    let ghost pv = vviews(ps@);
    let mut best: Vec<char> = Vec::new();
    let mut i: usize = 0;
    while i < ps.len()
        invariant
            0 <= i <= ps.len(),
            pv == vviews(ps@),
            pv.len() == ps.len(),
            best@ == longest_segment(pv.take(i as int)),
        decreases ps.len() - i,
    {
        proof {
            lemma_take_step(pv, i as int);
            assert(pv[i as int] == ps@[i as int]@);
        }
        let t = trim(&ps[i]);
        if t.len() >= 4 && t.len() >= best.len() {
            let ts = string_of(&t);
            if first_year(ts.as_str()).is_none() {
                best = t;
            }
        }
        i = i + 1;
    }
    proof {
        lemma_take_full(pv);
    }
    best
}

/// The title of `text` given the matches `ms` of the type-mark pattern
/// in it (see `parse_title_s`).
pub fn parse_title_from(text: &Vec<char>, ms: &Vec<(usize, usize, Option<(usize, usize)>)>) -> (r: Vec<
    char,
>)
    ensures
        r@ == parse_title_from_s(text@, ms@),
{
    let ts = string_of(text);
    let mut marked: Vec<char> = Vec::new();
    match match_of(ts.as_str(), ms) {
        Some((a, _)) => {
            let before = trim(&slice(text, 0, a));
            let pieces = split_set(&before, ".。");
            let k = pieces.len() - 1;
            proof {
                assert(vviews(pieces@).last() == pieces@[k as int]@);
            }
            marked = trim(&pieces[k]);
        },
        None => {},
    }
    if marked.len() > 0 {
        return marked;
    }
    let pieces = split_set(text, ".。");
    longest_segment_exec(&pieces)
}

fn parse_title(text: &Vec<char>) -> (r: Vec<char>)
    ensures
        r@ == parse_title_s(text@),
{
    let ts = string_of(text);
    let ms = matches_in("\\[[A-Z/]{1,5}\\]", ts.as_str());
    parse_title_from(text, &ms)
}

pub open spec fn venue_mark_pattern() -> Seq<char> {
    "\\[[A-Z/]{1,5}\\]\\."@
}

/// Index of the first `,`, `，` or `.` of `s`.
pub open spec fn first_stop(s: Seq<char>) -> Option<int>
    decreases s.len(),
{
    if s.len() == 0 {
        None
    } else {
        match first_stop(s.drop_last()) {
            Some(k) => Some(k),
            None => if has_char(",，."@, s.last()) {
                Some(s.len() - 1)
            } else {
                None
            },
        }
    }
}

/// The head of `after` where a venue ends: before the first `,`, `，` or
/// `.`; without one, the first 80 bytes (`None` when byte 80 falls inside
/// a character, as nothing can be cut there).
pub open spec fn venue_head(after: Seq<char>) -> Option<Seq<char>> {
    match first_stop(after) {
        Some(k) => Some(after.take(k)),
        None => if byte_len(after) <= 80 {
            Some(after)
        } else {
            match char_index_of(after, 80) {
                Some(k) => Some(after.take(k)),
                None => None,
            }
        },
    }
}

/// Venue: after a type mark `[J].`, up to the first comma or period; at
/// most 80 characters.
pub open spec fn parse_venue_from_s(t: Seq<char>, ms: Seq<(usize, usize, Option<(usize, usize)>)>) -> Option<
    Seq<char>,
> {
    match match_of_s(ms, t) {
        Some((_, e)) => match venue_head(trim_s(t.subrange(e, t.len() as int))) {
            Some(h) => if trim_s(h).len() == 0 || trim_s(h).len() > 80 {
                None
            } else {
                Some(trim_s(h))
            },
            None => None,
        },
        None => None,
    }
}

pub open spec fn parse_venue_s(t: Seq<char>) -> Option<Seq<char>> {
    parse_venue_from_s(t, matches_of(venue_mark_pattern(), t))
}

fn first_stop_exec(v: &Vec<char>) -> (r: Option<usize>)
    ensures
        r matches Some(k) ==> first_stop(v@) == Some(k as int) && k < v.len(),
        r is None ==> first_stop(v@) is None,
{
    let set = chars_of(",，.");
    let mut i: usize = 0;
    proof {
        assert(v@.take(0) =~= Seq::<char>::empty());
    }
    while i < v.len()
        invariant
            0 <= i <= v.len(),
            set@ == ",，."@,
            first_stop(v@.take(i as int)) is None,
        decreases v.len() - i,
    {
        proof {
            lemma_take_step(v@, i as int);
        }
        if contains_char(&set, v[i]) {
            proof {
                assert(first_stop(v@.take(i + 1)) == Some(i as int));
                lemma_first_stop_prefix(v@, i + 1);
            }
            return Some(i);
        }
        i = i + 1;
    }
    proof {
        lemma_take_full(v@);
    }
    None
}

proof fn lemma_first_stop_prefix(s: Seq<char>, n: int)
    requires
        0 <= n <= s.len(),
        first_stop(s.take(n)) is Some,
    ensures
        first_stop(s) == first_stop(s.take(n)),
    decreases s.len() - n,
{
    if n < s.len() {
        lemma_take_step(s, n);
        assert(s.take(n + 1).drop_last() =~= s.take(n));
        lemma_first_stop_prefix(s, n + 1);
    } else {
        assert(s.take(n) =~= s);
    }
}

/// The venue of `text` given the matches `ms` of the type-mark-and-period
/// pattern in it (see `parse_venue_s`).
pub fn parse_venue_from(text: &Vec<char>, ms: &Vec<(usize, usize, Option<(usize, usize)>)>) -> (r: Option<
    String,
>)
    ensures
        crate::store::ov(r) == parse_venue_from_s(text@, ms@),
{
    let ts = string_of(text);
    let e = match match_of(ts.as_str(), ms) {
        Some((_, e)) => e,
        None => {
            return None;
        },
    };
    let after = trim(&slice(text, e, text.len()));
    let head = match first_stop_exec(&after) {
        Some(k) => slice(&after, 0, k),
        None => {
            let astr = string_of(&after);
            if crate::text::str_byte_len(astr.as_str()) <= 80 {
                slice(&after, 0, after.len())
            } else {
                match char_index_at_byte(&after, 80) {
                    Some(k) => slice(&after, 0, k),
                    None => {
                        return None;
                    },
                }
            }
        },
    };
    proof {
        assert(venue_head(after@) == Some(head@));
    }
    let h = trim(&head);
    if h.len() == 0 || h.len() > 80 {
        None
    } else {
        Some(string_of(&h))
    }
}

fn parse_venue(text: &Vec<char>) -> (r: Option<String>)
    ensures
        crate::store::ov(r) == parse_venue_s(text@),
{
    let ts = string_of(text);
    let ms = matches_in("\\[[A-Z/]{1,5}\\]\\.", ts.as_str());
    parse_venue_from(text, &ms)
}

// ---------------------------------------------------------------------------
// Chinese notes with book-title marks
// ---------------------------------------------------------------------------

/// The state of a scan for `《...》`: titles found (index of the opening mark
/// and the trimmed inside), nesting depth, where the open title began.
pub struct TitleScan {
    pub out: Seq<(int, Seq<char>)>,
    pub depth: nat,
    pub open_at: int,
    pub content_start: int,
}

pub open spec fn title_scan(s: Seq<char>) -> TitleScan
    decreases s.len(),
{
    if s.len() == 0 {
        TitleScan { out: seq![], depth: 0, open_at: 0, content_start: 0 }
    } else {
        let st = title_scan(s.drop_last());
        let i = s.len() - 1;
        if s.last() == '《' {
            if st.depth == 0 {
                TitleScan { out: st.out, depth: 1, open_at: i, content_start: i + 1 }
            } else {
                TitleScan {
                    out: st.out,
                    depth: st.depth + 1,
                    open_at: st.open_at,
                    content_start: st.content_start,
                }
            }
        } else if s.last() == '》' && st.depth > 0 {
            if st.depth == 1 {
                let inner = trim_s(s.subrange(st.content_start, i));
                TitleScan {
                    out: if inner.len() > 0 {
                        st.out.push((st.open_at, inner))
                    } else {
                        st.out
                    },
                    depth: 0,
                    open_at: st.open_at,
                    content_start: st.content_start,
                }
            } else {
                TitleScan {
                    out: st.out,
                    depth: (st.depth - 1) as nat,
                    open_at: st.open_at,
                    content_start: st.content_start,
                }
            }
        } else {
            st
        }
    }
}

/// Every outermost `《...》` with something inside: the index of its `《`
/// and its trimmed inside (one level of nesting is kept inside).
pub open spec fn book_titles_s(s: Seq<char>) -> Seq<(int, Seq<char>)> {
    title_scan(s).out
}

pub open spec fn titles_view(v: Seq<(usize, String)>) -> Seq<(int, Seq<char>)> {
    v.map_values(|e: (usize, String)| (e.0 as int, e.1@))
}

proof fn lemma_title_scan_bounds(s: Seq<char>)
    ensures
        title_scan(s).depth <= s.len(),
        title_scan(s).depth > 0 ==> 0 <= title_scan(s).open_at < title_scan(s).content_start
            <= s.len(),
        forall|k: int| 0 <= k < title_scan(s).out.len() ==> 0 <= (#[trigger] title_scan(s).out[k]).0 < s.len(),
    decreases s.len(),
{
    if s.len() > 0 {
        lemma_title_scan_bounds(s.drop_last());
    }
}

fn book_titles(v: &Vec<char>) -> (r: Vec<(usize, String)>)
    ensures
        titles_view(r@) == book_titles_s(v@),
        forall|k: int| 0 <= k < r.len() ==> (#[trigger] r@[k]).0 < v.len(),
{
    let mut out: Vec<(usize, String)> = Vec::new();
    let mut depth: usize = 0;
    let mut open_at: usize = 0;
    let mut content_start: usize = 0;
    let mut i: usize = 0;
    proof {
        assert(v@.take(0) =~= Seq::<char>::empty());
        assert(titles_view(out@) =~= Seq::<(int, Seq<char>)>::empty());
    }
    while i < v.len()
        invariant
            0 <= i <= v.len(),
            titles_view(out@) == title_scan(v@.take(i as int)).out,
            depth == title_scan(v@.take(i as int)).depth,
            depth > 0 ==> open_at == title_scan(v@.take(i as int)).open_at && content_start
                == title_scan(v@.take(i as int)).content_start,
            depth > 0 ==> open_at < content_start <= i,
            forall|k: int| 0 <= k < out.len() ==> (#[trigger] out@[k]).0 < v.len(),
        decreases v.len() - i,
    {
        proof {
            lemma_take_step(v@, i as int);
            lemma_title_scan_bounds(v@.take(i as int));
        }
        let c = v[i];
        if c == '《' {
            if depth == 0 {
                open_at = i;
                content_start = i + 1;
            }
            depth = depth + 1;
        } else if c == '》' && depth > 0 {
            depth = depth - 1;
            if depth == 0 {
                let inner = trim(&slice(v, content_start, i));
                proof {
                    assert(v@.take(i + 1).subrange(content_start as int, i as int) =~= v@.subrange(
                        content_start as int,
                        i as int,
                    ));
                }
                if inner.len() > 0 {
                    let ghost o0 = out@;
                    out.push((open_at, string_of(&inner)));
                    proof {
                        assert(titles_view(out@) =~= titles_view(o0).push((open_at as int, inner@)));
                    }
                }
            }
        }
        i = i + 1;
    }
    proof {
        lemma_take_full(v@);
    }
    out
}

/// A Chinese law-style note: `张伟、陈静：《篇名》，载《刊名》2023 年第 2 期，第
/// 55-72 页。` or `王健：《书名》，法律出版社 2021 年版。` The title is the first
/// `《...》`; the authors stand before it (without 参见, 转引自, 详见, 见 and the
/// closing colon or comma); the venue is the second `《...》`, or else a
/// publisher.
pub open spec fn from_chinese_note_s(text: Seq<char>) -> Option<CitationModel> {
    let titles = book_titles_s(text);
    if titles.len() == 0 || trim_s(titles[0].1).len() == 0 {
        None
    } else {
        let head0 = trim_s(text.subrange(0, titles[0].0));
        let h1 = strip_prefix_rep(
            strip_prefix_rep(strip_prefix_rep(strip_prefix_rep(head0, "参见"@), "转引自"@), "详见"@),
            "见"@,
        );
        let head = trim_s(strip_end_set(trim_s(h1), "：:，,"@));
        Some(
            CitationModel {
                authors: keep_names(split_set_s(head, "、，,;；/"@), 20),
                title: titles[0].1,
                venue: if titles.len() > 1 {
                    Some(titles[1].1)
                } else {
                    publisher_s(text)
                },
                year: first_year_s(text),
                volume: issue_number_s(text),
                page: chinese_page_s(text),
                doi: None,
            },
        )
    }
}

fn from_chinese_note(text: &Vec<char>) -> (r: Option<Citation>)
    ensures
        crate::store::opt_cite_view(r) == from_chinese_note_s(text@),
{
    let titles = book_titles(text);
    if titles.len() == 0 {
        return None;
    }
    let ghost tv = titles_view(titles@);
    proof {
        assert(tv[0] == (titles@[0].0 as int, titles@[0].1@));
    }
    let start = titles[0].0;
    let tc = chars_of(titles[0].1.as_str());
    if trim(&tc).len() == 0 {
        return None;
    }
    let head0 = trim(&slice(text, 0, start));
    let h = strip_prefix_rep_exec(&head0, "参见");
    let h = strip_prefix_rep_exec(&h, "转引自");
    let h = strip_prefix_rep_exec(&h, "详见");
    let h = strip_prefix_rep_exec(&h, "见");
    let h = trim(&h);
    let h = strip_end_set_exec(&h, "：:，,");
    let head = trim(&h);
    let names = split_set(&head, "、，,;；/");
    let authors = keep_names_exec(&names, 20);
    let ts = string_of(text);
    let venue = if titles.len() > 1 {
        proof {
            assert(tv[1] == (titles@[1].0 as int, titles@[1].1@));
        }
        Some(crate::store::copy_string(&titles[1].1))
    } else {
        publisher(ts.as_str())
    };
    let c = Citation {
        authors,
        title: crate::store::copy_string(&titles[0].1),
        venue,
        year: first_year(ts.as_str()),
        volume: issue_number(ts.as_str()),
        page: chinese_page(ts.as_str()),
        doi: None,
    };
    Some(c)
}

// ---------------------------------------------------------------------------
// Entry points
// ---------------------------------------------------------------------------

/// The fields of one reference entry: a Chinese note when it has `《` and
/// reads as one; otherwise authors, title, venue, year, volume, pages and
/// DOI of a GB/T 7714 style entry. `None` when no title can be found.
pub open spec fn from_reference_entry_s(entry: Seq<char>) -> Option<CitationModel> {
    let text = strip_start_set(trim_s(entry), "[【0123456789]】 "@);
    if text.len() == 0 {
        None
    } else if has_char(text, '《') && from_chinese_note_s(text) is Some {
        from_chinese_note_s(text)
    } else if parse_title_s(text).len() == 0 {
        None
    } else {
        Some(
            CitationModel {
                authors: parse_authors_s(text),
                title: parse_title_s(text),
                venue: parse_venue_s(text),
                year: first_year_s(text),
                volume: parse_volume_s(text),
                page: parse_page_s(text),
                doi: parse_doi_s(text),
            },
        )
    }
}

/// Reads the fields of one reference entry (leading brackets, digits and
/// spaces, as in `[1] `, are skipped): Chinese notes with `《》` by their
/// own pattern, others as GB/T 7714. Fields that cannot be
/// found stay empty; `None` when no title can be found.
pub fn from_reference_entry(entry: &str) -> (r: Option<Citation>)
    ensures
        crate::store::opt_cite_view(r) == from_reference_entry_s(entry@),
{
    let ev = chars_of(entry);
    let t0 = trim(&ev);
    let text = strip_start_set_exec(&t0, "[【0123456789]】 ");
    if text.len() == 0 {
        return None;
    }
    if contains_char(&text, '《') {
        let c = from_chinese_note(&text);
        if c.is_some() {
            return c;
        }
    }
    let title = parse_title(&text);
    if title.len() == 0 {
        return None;
    }
    let ts = string_of(&text);
    Some(
        Citation {
            authors: parse_authors(&text),
            title: string_of(&title),
            venue: parse_venue(&text),
            year: first_year(ts.as_str()),
            volume: parse_volume(ts.as_str()),
            page: parse_page(ts.as_str()),
            doi: parse_doi(ts.as_str()),
        },
    )
}

/// The current paper from its window title and the copied text: the
/// trimmed title, and a year found in the first 500 characters of the
/// text; `None` for a blank title.
pub open spec fn from_title_content_s(title: Seq<char>, content: Seq<char>) -> Option<
    CitationModel,
> {
    if trim_s(title).len() == 0 {
        None
    } else {
        Some(
            CitationModel {
                authors: seq![],
                title: trim_s(title),
                venue: None,
                year: first_year_s(
                    content.take(
                        if content.len() < 500 {
                            content.len() as int
                        } else {
                            500
                        },
                    ),
                ),
                volume: None,
                page: None,
                doi: None,
            },
        )
    }
}

/// The fallback citation of the paper being read: its title, and a year
/// named near the start of the copied text.
pub fn from_title_content(title: &str, content: &str) -> (r: Option<Citation>)
    ensures
        crate::store::opt_cite_view(r) == from_title_content_s(title@, content@),
{
    let tv = chars_of(title);
    let clean = trim(&tv);
    if clean.len() == 0 {
        return None;
    }
    let cv = chars_of(content);
    let n = if cv.len() < 500 {
        cv.len()
    } else {
        500
    };
    let head = slice(&cv, 0, n);
    proof {
        assert(head@ =~= cv@.take(n as int));
    }
    let hs = string_of(&head);
    let c = Citation {
        authors: Vec::new(),
        title: string_of(&clean),
        venue: None,
        year: first_year(hs.as_str()),
        volume: None,
        page: None,
        doi: None,
    };
    proof {
        assert(sviews(c.authors@) =~= Seq::<Seq<char>>::empty());
    }
    Some(c)
}

// ---------------------------------------------------------------------------
// Titles are trimmed and not empty
// ---------------------------------------------------------------------------

proof fn lemma_trim_empty()
    ensures
        trim_s(Seq::<char>::empty()) == Seq::<char>::empty(),
{
}

proof fn lemma_longest_segment_trimmed(ps: Seq<Seq<char>>)
    ensures
        trim_s(longest_segment(ps)) == longest_segment(ps),
    decreases ps.len(),
{
    if ps.len() == 0 {
        lemma_trim_empty();
    } else {
        lemma_longest_segment_trimmed(ps.drop_last());
        crate::text::lemma_trim_idempotent(ps.last());
    }
}

proof fn lemma_title_scan_trimmed(s: Seq<char>)
    ensures
        forall|k: int|
            0 <= k < title_scan(s).out.len() ==> {
                let t = (#[trigger] title_scan(s).out[k]).1;
                t.len() > 0 && trim_s(t) == t
            },
    decreases s.len(),
{
    if s.len() > 0 {
        lemma_title_scan_trimmed(s.drop_last());
        let st = title_scan(s.drop_last());
        if s.last() == '》' && st.depth == 1 {
            let inner = trim_s(s.subrange(st.content_start, s.len() - 1));
            crate::text::lemma_trim_idempotent(s.subrange(st.content_start, s.len() - 1));
            if inner.len() > 0 {
                assert forall|k: int| 0 <= k < title_scan(s).out.len() implies {
                    let t = (#[trigger] title_scan(s).out[k]).1;
                    t.len() > 0 && trim_s(t) == t
                } by {
                    if k < st.out.len() {
                        assert(title_scan(s).out[k] == st.out[k]);
                    }
                }
            }
        }
    }
}

/// The title read from a reference entry is never empty and is already
/// trimmed.
pub proof fn law_entry_title_trimmed(entry: Seq<char>)
    ensures
        from_reference_entry_s(entry) matches Some(c) ==> c.title.len() > 0 && trim_s(c.title)
            == c.title,
{
    let text = strip_start_set(trim_s(entry), "[【0123456789]】 "@);
    lemma_title_scan_trimmed(text);
    let ms = matches_of(type_mark_pattern(), text);
    lemma_longest_segment_trimmed(split_set_s(text, ".。"@));
    match match_of_s(ms, text) {
        Some((a, _)) => {
            crate::text::lemma_trim_idempotent(
                split_set_s(trim_s(text.subrange(0, a)), ".。"@).last(),
            );
        },
        None => {},
    }
    if has_char(text, '《') && from_chinese_note_s(text) is Some {
        let titles = book_titles_s(text);
        assert(titles[0] == title_scan(text).out[0]);
    }
}

/// The volume is the text the volume pattern's first match captured,
/// trimmed: when that capture covers the characters `a..b` of the entry
/// and is not blank, the volume is exactly those characters trimmed; when
/// it is blank, or nothing matched, there is none.
pub proof fn law_volume_is_the_capture(
    t: Seq<char>,
    ms: Seq<(usize, usize, Option<(usize, usize)>)>,
    a: int,
    b: int,
)
    requires
        0 <= a <= b <= t.len(),
    ensures
        ms.len() > 0 && ms[0].2 == Some(
            (crate::text::byte_at(t, a) as usize, crate::text::byte_at(t, b) as usize),
        ) && crate::text::byte_at(t, b) <= usize::MAX ==> parse_volume_from_s(t, ms) == if trim_s(
            t.subrange(a, b),
        ).len() > 0 {
            Some(trim_s(t.subrange(a, b)))
        } else {
            None::<Seq<char>>
        },
        ms.len() == 0 ==> parse_volume_from_s(t, ms) is None,
{
    if ms.len() > 0 && ms[0].2 == Some(
        (crate::text::byte_at(t, a) as usize, crate::text::byte_at(t, b) as usize),
    ) && crate::text::byte_at(t, b) <= usize::MAX {
        crate::text::lemma_byte_at_le(t, a, b);
        let g0 = crate::text::byte_at(t, a) as usize;
        let g1 = crate::text::byte_at(t, b) as usize;
        assert(char_index_of(t, g0 as int) == Some(a)) by {
            let i = choose|i: int| 0 <= i <= t.len() && #[trigger] crate::text::byte_at(t, i) == g0 as int;
            crate::text::lemma_char_index_unique(t, i, a);
        }
        assert(char_index_of(t, g1 as int) == Some(b)) by {
            let i = choose|i: int| 0 <= i <= t.len() && #[trigger] crate::text::byte_at(t, i) == g1 as int;
            crate::text::lemma_char_index_unique(t, i, b);
        }
    }
}

/// The first match's capture, when it covers the characters `a..b`.
proof fn lemma_first_capture(
    t: Seq<char>,
    ms: Seq<(usize, usize, Option<(usize, usize)>)>,
    a: int,
    b: int,
)
    requires
        0 <= a <= b <= t.len(),
        crate::text::byte_at(t, b) <= usize::MAX,
        ms.len() > 0,
        ms[0].2 == Some(
            (crate::text::byte_at(t, a) as usize, crate::text::byte_at(t, b) as usize),
        ),
    ensures
        group_of_s(ms, t) == Some(t.subrange(a, b)),
{
    crate::text::lemma_byte_at_le(t, a, b);
    let g0 = crate::text::byte_at(t, a) as usize;
    let g1 = crate::text::byte_at(t, b) as usize;
    assert(char_index_of(t, g0 as int) == Some(a)) by {
        let i = choose|i: int| 0 <= i <= t.len() && #[trigger] crate::text::byte_at(t, i) == g0 as int;
        crate::text::lemma_char_index_unique(t, i, a);
    }
    assert(char_index_of(t, g1 as int) == Some(b)) by {
        let i = choose|i: int| 0 <= i <= t.len() && #[trigger] crate::text::byte_at(t, i) == g1 as int;
        crate::text::lemma_char_index_unique(t, i, b);
    }
}

/// Leaving out every `c` keeps the other characters in order.
pub proof fn lemma_remove_char_filter(s: Seq<char>, c: char)
    ensures
        remove_char_s(s, c) == s.filter(|x: char| x != c),
    decreases s.len(),
{
    reveal(Seq::filter);
    if s.len() > 0 {
        lemma_remove_char_filter(s.drop_last(), c);
    }
}

/// Removing trailing `c`s leaves a prefix of the text, followed in it only
/// by `c`s, that does not itself end with `c`.
pub proof fn lemma_strip_end_char(s: Seq<char>, c: char)
    ensures
        ({
            let r = strip_end_char(s, c);
            &&& r.len() <= s.len()
            &&& r == s.take(r.len() as int)
            &&& forall|i: int| r.len() <= i < s.len() ==> s[i] == c
            &&& r.len() > 0 ==> r.last() != c
        }),
    decreases s.len(),
{
    if s.len() > 0 && s.last() == c {
        lemma_strip_end_char(s.drop_last(), c);
        let r = strip_end_char(s, c);
        assert(s.drop_last().take(r.len() as int) =~= s.take(r.len() as int));
        assert forall|i: int| r.len() <= i < s.len() implies s[i] == c by {
            if i < s.len() - 1 {
                assert(s[i] == s.drop_last()[i]);
            }
        }
    } else {
        assert(s.take(s.len() as int) =~= s);
    }
}

/// What each field reader makes of the first match of its pattern, when
/// its capture covers the characters `a..b` of the entry: the issue is the
/// capture in parentheses; the pages are the capture without its spaces;
/// the DOI is the capture without its trailing dots; without any match
/// there is no field.
pub proof fn law_fields_are_the_captures(
    t: Seq<char>,
    ms: Seq<(usize, usize, Option<(usize, usize)>)>,
    a: int,
    b: int,
)
    requires
        0 <= a <= b <= t.len(),
        crate::text::byte_at(t, b) <= usize::MAX,
    ensures
        ms.len() > 0 && ms[0].2 == Some(
            (crate::text::byte_at(t, a) as usize, crate::text::byte_at(t, b) as usize),
        ) ==> {
            let g = t.subrange(a, b);
            &&& issue_number_from_s(t, ms) == Some("("@ + g + ")"@)
            &&& parse_page_from_s(t, ms) == Some(g.filter(|x: char| x != ' '))
            &&& chinese_page_from_s(t, ms) == Some(g.filter(|x: char| x != ' '))
            &&& parse_doi_from_s(t, ms) matches Some(d) && d == g.take(d.len() as int) && (forall|
                i: int,
            | d.len() <= i < g.len() ==> g[i] == '.') && (d.len() > 0 ==> d.last() != '.')
        },
        ms.len() == 0 ==> issue_number_from_s(t, ms) is None && parse_page_from_s(t, ms) is None
            && chinese_page_from_s(t, ms) is None && parse_doi_from_s(t, ms) is None
            && first_year_from_s(t, ms) is None,
{
    if ms.len() > 0 && ms[0].2 == Some(
        (crate::text::byte_at(t, a) as usize, crate::text::byte_at(t, b) as usize),
    ) {
        lemma_first_capture(t, ms, a, b);
        let g = t.subrange(a, b);
        lemma_remove_char_filter(g, ' ');
        lemma_strip_end_char(g, '.');
    }
}

} // verus!
