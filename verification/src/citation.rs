//! Citation markers in copied text, numbered bibliography blocks, and the
//! reference strings built from structured citations.
use vstd::prelude::*;

pub use crate::extraction::{extract, extract_citation_from_entry, Extracted};
pub use crate::heuristics::{from_reference_entry, from_title_content};
pub use crate::styles::{format_citation, DocType};

use crate::rx::{char_range, char_range_of, matches_in, matches_of, text_of_range};
use crate::text::{
    ascii_lower, byte_at, byte_len, char_index_of, char_is_lowercase, char_of_ascii, char_width,
    chars_of, digit_char, digit_of, ends_with_s, ends_with_str, is_alpha, is_ascii_alphabetic,
    is_ascii_digit, is_digit, is_lowercase_char, lemma_byte_at_le, lemma_take_full,
    lemma_take_step, lines, lines_s, parse_u32, parse_u32_s, slice, starts_with_s,
    starts_with_str, str_byte_len, string_of, to_ascii_lower, trim, trim_end, trim_end_s, trim_s,
    utf8_width, vviews,
};

verus! {

// ---------------------------------------------------------------------------
// Markers
// ---------------------------------------------------------------------------

/// A numbered citation marker in a text.
#[derive(Debug, Clone, Copy, PartialEq, Eq, Structural)]
pub struct Marker {
    /// Byte range of the marker in the text.
    pub start: usize,
    pub end: usize,
    /// The number the marker carries.
    pub num: u32,
}

impl Marker {
    /// The marker as written, such as `②`, `[2]` or `¹²` (empty when the
    /// range does not fit `source`).
    pub fn text<'a>(&self, source: &'a str) -> (r: &'a str)
        ensures
            r@ == text_of_range(source@, self.start as int, self.end as int),
    {
        let v = chars_of(source);
        match char_range(&v, self.start, self.end) {
            Some((a, b)) => source.substring_char(a, b),
            None => source.substring_char(0, 0),
        }
    }
}

/// The number of a circled or parenthesised numeral character.
pub open spec fn enclosed_num(c: char) -> Option<u32> {
    let n = c as u32;
    if n == 0x24EA {
        Some(0)
    } else if 0x2460 <= n <= 0x2473 {
        Some((n - 0x2460 + 1) as u32)
    } else if 0x2474 <= n <= 0x2487 {
        Some((n - 0x2474 + 1) as u32)
    } else if 0x2776 <= n <= 0x277F {
        Some((n - 0x2776 + 1) as u32)
    } else if 0x2780 <= n <= 0x2789 {
        Some((n - 0x2780 + 1) as u32)
    } else if 0x278A <= n <= 0x2793 {
        Some((n - 0x278A + 1) as u32)
    } else if 0x3251 <= n <= 0x325F {
        Some((n - 0x3251 + 21) as u32)
    } else if 0x32B1 <= n <= 0x32BF {
        Some((n - 0x32B1 + 36) as u32)
    } else {
        None
    }
}

/// Single-character circled / parenthesised numerals: ⓪ ①..⑳ ⑴..⒇ ❶..❿ ➀..➉ ➊..➓ ㉑..㉟ ㊱..㊿.
pub fn enclosed_number_of(c: char) -> (r: Option<u32>)
    ensures
        r == enclosed_num(c),
{
    let n = c as u32;
    if n == 0x24EA {
        Some(0)
    } else if 0x2460 <= n && n <= 0x2473 {
        Some(n - 0x2460 + 1)
    } else if 0x2474 <= n && n <= 0x2487 {
        Some(n - 0x2474 + 1)
    } else if 0x2776 <= n && n <= 0x277F {
        Some(n - 0x2776 + 1)
    } else if 0x2780 <= n && n <= 0x2789 {
        Some(n - 0x2780 + 1)
    } else if 0x278A <= n && n <= 0x2793 {
        Some(n - 0x278A + 1)
    } else if 0x3251 <= n && n <= 0x325F {
        Some(n - 0x3251 + 21)
    } else if 0x32B1 <= n && n <= 0x32BF {
        Some(n - 0x32B1 + 36)
    } else {
        None
    }
}

/// The digit of a superscript digit character.
pub open spec fn superscript_num(c: char) -> Option<u32> {
    if c == '⁰' {
        Some(0)
    } else if c == '¹' {
        Some(1)
    } else if c == '²' {
        Some(2)
    } else if c == '³' {
        Some(3)
    } else if '⁴' <= c <= '⁹' {
        Some(((c as u32) - ('⁴' as u32) + 4) as u32)
    } else {
        None
    }
}

/// Superscript digits ⁰¹²³⁴⁵⁶⁷⁸⁹.
pub fn superscript_of(c: char) -> (r: Option<u32>)
    ensures
        r == superscript_num(c),
        r matches Some(d) ==> d < 10,
{
    if c == '⁰' {
        Some(0)
    } else if c == '¹' {
        Some(1)
    } else if c == '²' {
        Some(2)
    } else if c == '³' {
        Some(3)
    } else if '⁴' <= c && c <= '⁹' {
        Some((c as u32) - ('⁴' as u32) + 4)
    } else {
        None
    }
}

/// The ASCII digits of `s`, in order.
pub open spec fn ascii_digits(s: Seq<char>) -> Seq<char>
    decreases s.len(),
{
    if s.len() == 0 {
        seq![]
    } else if is_digit(s.last()) {
        ascii_digits(s.drop_last()).push(s.last())
    } else {
        ascii_digits(s.drop_last())
    }
}

/// The number of the first enclosed numeral of `s`.
pub open spec fn first_enclosed(s: Seq<char>) -> Option<u32>
    decreases s.len(),
{
    if s.len() == 0 {
        None
    } else if enclosed_num(s[0]) is Some {
        enclosed_num(s[0])
    } else {
        first_enclosed(s.drop_first())
    }
}

/// The superscript digits of `s`, read as ASCII digits.
pub open spec fn superscript_digits(s: Seq<char>) -> Seq<char>
    decreases s.len(),
{
    if s.len() == 0 {
        seq![]
    } else {
        match superscript_num(s.last()) {
            Some(d) => superscript_digits(s.drop_last()).push(digit_char(d as nat)),
            None => superscript_digits(s.drop_last()),
        }
    }
}

/// The number a marker carries: its ASCII digits if it has any, else its first
/// enclosed numeral, else its superscript digits read together.
pub open spec fn marker_number_s(s: Seq<char>) -> Option<u32> {
    if ascii_digits(s).len() > 0 {
        parse_u32_s(ascii_digits(s))
    } else if first_enclosed(s) is Some {
        first_enclosed(s)
    } else {
        parse_u32_s(superscript_digits(s))
    }
}

/// The number of a marker as written (`②` → 2, `[12]` → 12, `¹²` → 12).
pub fn marker_number(marker: &str) -> (r: Option<u32>)
    ensures
        r == marker_number_s(marker@),
{
    let v = chars_of(marker);
    let mut ascii: Vec<char> = Vec::new();
    let mut sup: Vec<char> = Vec::new();
    let mut i: usize = 0;
    proof {
        assert(v@.take(0) =~= Seq::<char>::empty());
    }
    while i < v.len()
        invariant
            0 <= i <= v.len(),
            ascii@ == ascii_digits(v@.take(i as int)),
            sup@ == superscript_digits(v@.take(i as int)),
        decreases v.len() - i,
    {
        proof {
            lemma_take_step(v@, i as int);
        }
        let c = v[i];
        if is_ascii_digit(c) {
            ascii.push(c);
        }
        match superscript_of(c) {
            Some(d) => {
                let dc = digit_of(d as u64);
                sup.push(dc);
            },
            None => {},
        }
        i = i + 1;
    }
    proof {
        lemma_take_full(v@);
    }
    if ascii.len() > 0 {
        return parse_u32(&ascii);
    }
    let mut k: usize = 0;
    proof {
        assert(v@.skip(0) =~= v@);
    }
    while k < v.len()
        invariant
            0 <= k <= v.len(),
            first_enclosed(v@) == first_enclosed(v@.skip(k as int)),
            v@ == marker@,
            ascii_digits(v@).len() == 0,
            sup@ == superscript_digits(v@),
        decreases v.len() - k,
    {
        proof {
            assert(v@.skip(k as int).drop_first() =~= v@.skip(k + 1));
            assert(v@.skip(k as int)[0] == v@[k as int]);
        }
        let e = enclosed_number_of(v[k]);
        if e.is_some() {
            proof {
                assert(first_enclosed(v@.skip(k as int)) == enclosed_num(v@[k as int]));
                assert(first_enclosed(v@) is Some);
            }
            return e;
        }
        k = k + 1;
    }
    proof {
        assert(v@.skip(v.len() as int).len() == 0);
    }
    parse_u32(&sup)
}

/// Group 1 of the bracket pattern holds the digits; the whole match is the marker.
pub open spec fn bracket_pattern() -> Seq<char> {
    "[\\[【〔](\\d{1,3})[\\]】〕]"@
}

/// Markers of the form `[N]`, `【N】`, `〔N〕` from the pattern's matches.
pub open spec fn bracket_markers(
    text: Seq<char>,
    ms: Seq<(usize, usize, Option<(usize, usize)>)>,
) -> Seq<Marker>
    decreases ms.len(),
{
    if ms.len() == 0 {
        seq![]
    } else {
        let prev = bracket_markers(text, ms.drop_last());
        let m = ms.last();
        match m.2 {
            Some((g0, g1)) => match char_range_of(text, g0 as int, g1 as int) {
                Some((a, b)) => match parse_u32_s(text.subrange(a, b)) {
                    Some(n) => prev.push(Marker { start: m.0, end: m.1, num: n }),
                    None => prev,
                },
                None => prev,
            },
            None => prev,
        }
    }
}

/// `num * 10 + d`, saturating at `u32::MAX`.
pub open spec fn sat_digit(num: u32, d: u32) -> u32 {
    if num * 10 + d > u32::MAX {
        u32::MAX
    } else {
        (num * 10 + d) as u32
    }
}

/// A pending run of superscript digits: start, end, number, and whether it
/// follows a Latin letter (then it is notation such as x², not a marker).
pub type SupRun = Option<(usize, usize, u32, bool)>;

/// Adds a finished superscript run to the markers found so far.
pub open spec fn flush_run(out: Seq<Marker>, run: SupRun) -> Seq<Marker> {
    match run {
        Some((s, e, n, latin)) => if latin {
            out
        } else {
            out.push(Marker { start: s, end: e, num: n })
        },
        None => out,
    }
}

/// One character of the scan for enclosed numerals and superscript runs;
/// `pos` is the byte offset of `c`.
pub open spec fn scan_step(
    st: (Seq<Marker>, Option<char>, SupRun),
    c: char,
    pos: nat,
) -> (Seq<Marker>, Option<char>, SupRun) {
    let (out, prev, run) = st;
    let end = (pos + utf8_width(c)) as usize;
    match (run, superscript_num(c)) {
        (Some((s, e, n, latin)), Some(d)) => (out, Some(c), Some((s, end, sat_digit(n, d), latin))),
        _ => {
            let out1 = flush_run(out, run);
            match enclosed_num(c) {
                Some(n) => (out1.push(Marker { start: pos as usize, end, num: n }), Some(c), None),
                None => match superscript_num(c) {
                    Some(d) => (
                        out1,
                        Some(c),
                        Some(
                            (
                                pos as usize,
                                end,
                                d,
                                match prev {
                                    Some(p) => is_alpha(p),
                                    None => false,
                                },
                            ),
                        ),
                    ),
                    None => (out1, Some(c), None),
                },
            }
        },
    }
}

pub open spec fn scan_state(s: Seq<char>) -> (Seq<Marker>, Option<char>, SupRun)
    decreases s.len(),
{
    if s.len() == 0 {
        (seq![], None, None)
    } else {
        scan_step(scan_state(s.drop_last()), s.last(), byte_len(s.drop_last()))
    }
}

/// Enclosed numerals and superscript runs (`¹²` reads as 12), in text order.
pub open spec fn char_markers(s: Seq<char>) -> Seq<Marker> {
    flush_run(scan_state(s).0, scan_state(s).2)
}

/// Inserts `m` after every marker that does not start later than it.
pub open spec fn insert_by_start(s: Seq<Marker>, m: Marker) -> Seq<Marker>
    decreases s.len(),
{
    if s.len() > 0 && s.last().start > m.start {
        insert_by_start(s.drop_last(), m).push(s.last())
    } else {
        s.push(m)
    }
}

/// Stable sort by start offset.
pub open spec fn sort_by_start(s: Seq<Marker>) -> Seq<Marker>
    decreases s.len(),
{
    if s.len() == 0 {
        seq![]
    } else {
        insert_by_start(sort_by_start(s.drop_last()), s.last())
    }
}

/// Every numbered marker of `text`, ordered by position.
pub open spec fn scan_markers_s(text: Seq<char>) -> Seq<Marker> {
    scan_markers_from_s(text, matches_of(bracket_pattern(), text))
}

/// The markers of `text` given the matches `ms` of the bracket pattern:
/// the bracketed ones and the single-character ones, ordered by position.
pub open spec fn scan_markers_from_s(
    text: Seq<char>,
    ms: Seq<(usize, usize, Option<(usize, usize)>)>,
) -> Seq<Marker> {
    sort_by_start(bracket_markers(text, ms) + char_markers(text))
}

proof fn lemma_insert_at(s: Seq<Marker>, m: Marker, p: int)
    requires
        0 <= p <= s.len(),
        forall|j: int| p <= j < s.len() ==> s[j].start > m.start,
        p == 0 || s[p - 1].start <= m.start,
    ensures
        insert_by_start(s, m) == s.insert(p, m),
    decreases s.len(),
{
    if s.len() > 0 && s.last().start > m.start {
        assert(p < s.len());
        lemma_insert_at(s.drop_last(), m, p);
        assert(s.drop_last().insert(p, m).push(s.last()) =~= s.insert(p, m));
    } else {
        assert(p == s.len());
        assert(s.push(m) =~= s.insert(p, m));
    }
}

fn insert_sorted(v: &mut Vec<Marker>, m: Marker)
    ensures
        final(v)@ == insert_by_start(old(v)@, m),
{
    let mut p: usize = v.len();
    while p > 0 && v[p - 1].start > m.start
        invariant
            0 <= p <= v.len(),
            forall|j: int| p <= j < v.len() ==> v@[j].start > m.start,
        decreases p,
    {
        p = p - 1;
    }
    proof {
        lemma_insert_at(v@, m, p as int);
    }
    v.insert(p, m);
}

fn sort_markers(v: &Vec<Marker>) -> (r: Vec<Marker>)
    ensures
        r@ == sort_by_start(v@),
{
    let mut r: Vec<Marker> = Vec::new();
    let mut k: usize = 0;
    proof {
        assert(v@.take(0) =~= Seq::<Marker>::empty());
    }
    while k < v.len()
        invariant
            0 <= k <= v.len(),
            r@ == sort_by_start(v@.take(k as int)),
        decreases v.len() - k,
    {
        proof {
            lemma_take_step(v@, k as int);
        }
        insert_sorted(&mut r, v[k]);
        k = k + 1;
    }
    proof {
        lemma_take_full(v@);
    }
    r
}

fn bracket_markers_of(v: &Vec<char>, ms: &Vec<(usize, usize, Option<(usize, usize)>)>) -> (r: Vec<
    Marker,
>)
    ensures
        r@ == bracket_markers(v@, ms@),
{
    let mut r: Vec<Marker> = Vec::new();
    let mut k: usize = 0;
    proof {
        assert(ms@.take(0) =~= Seq::<(usize, usize, Option<(usize, usize)>)>::empty());
    }
    while k < ms.len()
        invariant
            0 <= k <= ms.len(),
            r@ == bracket_markers(v@, ms@.take(k as int)),
        decreases ms.len() - k,
    {
        proof {
            lemma_take_step(ms@, k as int);
        }
        let m = ms[k];
        match m.2 {
            Some((g0, g1)) => match char_range(v, g0, g1) {
                Some((a, b)) => {
                    let digits = slice(v, a, b);
                    match parse_u32(&digits) {
                        Some(n) => {
                            r.push(Marker { start: m.0, end: m.1, num: n });
                        },
                        None => {},
                    }
                },
                None => {},
            },
            None => {},
        }
        k = k + 1;
    }
    proof {
        lemma_take_full(ms@);
    }
    r
}

fn sat_digit_exec(num: u32, d: u32) -> (r: u32)
    requires
        d < 10,
    ensures
        r == sat_digit(num, d),
{
    if num > 429496729 {
        u32::MAX
    } else {
        let t = num * 10;
        if t > u32::MAX - d {
            u32::MAX
        } else {
            t + d
        }
    }
}

fn flush_run_exec(out: &mut Vec<Marker>, run: SupRun)
    ensures
        final(out)@ == flush_run(old(out)@, run),
{
    match run {
        Some((s, e, n, latin)) => {
            if !latin {
                out.push(Marker { start: s, end: e, num: n });
            }
        },
        None => {},
    }
}

fn char_markers_of(v: &Vec<char>, total: usize) -> (r: Vec<Marker>)
    requires
        total == byte_len(v@),
    ensures
        r@ == char_markers(v@),
{
    let mut out: Vec<Marker> = Vec::new();
    let mut prev: Option<char> = None;
    let mut run: SupRun = None;
    let mut pos: usize = 0;
    let mut i: usize = 0;
    proof {
        assert(v@.take(0) =~= Seq::<char>::empty());
        lemma_take_full(v@);
    }
    while i < v.len()
        invariant
            0 <= i <= v.len(),
            total == byte_len(v@),
            pos == byte_at(v@, i as int),
            (out@, prev, run) == scan_state(v@.take(i as int)),
        decreases v.len() - i,
    {
        proof {
            lemma_take_step(v@, i as int);
            lemma_byte_at_le(v@, i + 1, v@.len() as int);
            lemma_take_full(v@);
        }
        let c = v[i];
        let w = char_width(c);
        let end = pos + w;
        let sup = superscript_of(c);
        let mut handled = false;
        match run {
            Some((s, _e, n, latin)) => match sup {
                Some(d) => {
                    run = Some((s, end, sat_digit_exec(n, d), latin));
                    prev = Some(c);
                    handled = true;
                },
                None => {},
            },
            None => {},
        }
        if !handled {
            flush_run_exec(&mut out, run);
            match enclosed_number_of(c) {
                Some(n) => {
                    out.push(Marker { start: pos, end, num: n });
                    run = None;
                },
                None => match sup {
                    Some(d) => {
                        let latin = match prev {
                            Some(p) => is_ascii_alphabetic(p),
                            None => false,
                        };
                        run = Some((pos, end, d, latin));
                    },
                    None => {
                        run = None;
                    },
                },
            }
            prev = Some(c);
        }
        pos = end;
        i = i + 1;
    }
    proof {
        lemma_take_full(v@);
    }
    flush_run_exec(&mut out, run);
    out
}

/// Every numbered citation marker of `text`, ordered by position: `[N]`,
/// `【N】`, `〔N〕` with one to three digits, single enclosed numerals, and runs
/// of superscript digits read together (`¹²` is 12) unless they follow a
/// Latin letter (x², cm³).
pub fn scan_markers(text: &str) -> (r: Vec<Marker>)
    ensures
        r@ == scan_markers_s(text@),
{
    let ms = matches_in("[\\[【〔](\\d{1,3})[\\]】〕]", text);
    scan_markers_from(text, &ms)
}

/// The markers of `text` once the bracket pattern's matches `ms` are known.
pub fn scan_markers_from(text: &str, ms: &Vec<(usize, usize, Option<(usize, usize)>)>) -> (r: Vec<
    Marker,
>)
    ensures
        r@ == scan_markers_from_s(text@, ms@),
{
    let total = str_byte_len(text);
    let v = chars_of(text);
    let b = bracket_markers_of(&v, ms);
    let c = char_markers_of(&v, total);
    let mut all = b;
    let mut k: usize = 0;
    let ghost b0 = all@;
    while k < c.len()
        invariant
            0 <= k <= c.len(),
            all@ == b0 + c@.take(k as int),
        decreases c.len() - k,
    {
        proof {
            lemma_take_step(c@, k as int);
            assert(b0 + c@.take(k + 1) =~= (b0 + c@.take(k as int)).push(c@[k as int]));
        }
        all.push(c[k]);
        k = k + 1;
    }
    proof {
        lemma_take_full(c@);
    }
    sort_markers(&all)
}

/// The distinct numbers of `ms`, in order of first appearance.
pub open spec fn distinct_nums(ms: Seq<Marker>) -> Seq<u32>
    decreases ms.len(),
{
    if ms.len() == 0 {
        seq![]
    } else {
        let prev = distinct_nums(ms.drop_last());
        if prev.contains(ms.last().num) {
            prev
        } else {
            prev.push(ms.last().num)
        }
    }
}

/// `distinct_nums` holds each number of the markers, only those, once each,
/// and is empty exactly when there are no markers.
pub proof fn lemma_distinct_nums(ms: Seq<Marker>)
    ensures
        distinct_nums(ms).no_duplicates(),
        forall|i: int| 0 <= i < ms.len() ==> distinct_nums(ms).contains(#[trigger] ms[i].num),
        forall|x: u32|
            distinct_nums(ms).contains(x) ==> exists|i: int| 0 <= i < ms.len() && #[trigger] ms[i].num == x,
        distinct_nums(ms).len() == 0 <==> ms.len() == 0,
    decreases ms.len(),
{
    if ms.len() > 0 {
        let p = ms.drop_last();
        lemma_distinct_nums(p);
        let d = distinct_nums(ms);
        let dp = distinct_nums(p);
        assert forall|i: int| 0 <= i < ms.len() implies d.contains(#[trigger] ms[i].num) by {
            if i < ms.len() - 1 {
                assert(p[i] == ms[i]);
                assert(dp.contains(p[i].num));
                if !dp.contains(ms.last().num) {
                    let j = choose|j: int| 0 <= j < dp.len() && dp[j] == p[i].num;
                    assert(d[j] == dp[j]);
                }
            } else {
                if !dp.contains(ms.last().num) {
                    assert(d[dp.len() as int] == ms.last().num);
                }
            }
        }
        assert forall|x: u32| d.contains(x) implies exists|i: int|
            0 <= i < ms.len() && #[trigger] ms[i].num == x by {
            let j = choose|j: int| 0 <= j < d.len() && d[j] == x;
            if j < dp.len() {
                assert(dp[j] == x);
                assert(dp.contains(x));
                let i = choose|i: int| 0 <= i < p.len() && #[trigger] p[i].num == x;
                assert(ms[i] == p[i]);
            } else {
                assert(ms[ms.len() - 1].num == x);
            }
        }
        if !dp.contains(ms.last().num) {
            assert forall|a: int, b: int| 0 <= a < d.len() && 0 <= b < d.len() && a != b implies d[a]
                != d[b] by {
                if a < dp.len() && b < dp.len() {
                    assert(d[a] == dp[a] && d[b] == dp[b]);
                } else if a < dp.len() {
                    assert(d[a] == dp[a]);
                    assert(dp.contains(d[a]));
                } else {
                    assert(d[b] == dp[b]);
                    assert(dp.contains(d[b]));
                }
            }
        }
        assert(d.contains(ms[0].num));
    }
}

/// The marker list of an excerpt holds each scanned number, only those,
/// once each, in order of first appearance; it is empty exactly when the
/// excerpt has no marker.
pub proof fn law_markers_are_the_scanned_numbers(content: Seq<char>)
    ensures
        markers_s(content).no_duplicates(),
        forall|i: int|
            0 <= i < scan_markers_s(content).len() ==> markers_s(content).contains(
                #[trigger] scan_markers_s(content)[i].num,
            ),
        forall|x: u32|
            markers_s(content).contains(x) ==> exists|i: int|
                0 <= i < scan_markers_s(content).len() && #[trigger] scan_markers_s(content)[i].num == x,
        markers_s(content).len() == 0 <==> scan_markers_s(content).len() == 0,
{
    lemma_distinct_nums(scan_markers_s(content));
}

pub open spec fn markers_s(content: Seq<char>) -> Seq<u32> {
    distinct_nums(scan_markers_s(content))
}

fn contains_u32(v: &Vec<u32>, x: u32) -> (r: bool)
    ensures
        r == v@.contains(x),
{
    let mut i: usize = 0;
    while i < v.len()
        invariant
            0 <= i <= v.len(),
            forall|j: int| 0 <= j < i ==> v@[j] != x,
        decreases v.len() - i,
    {
        if v[i] == x {
            return true;
        }
        i = i + 1;
    }
    false
}

/// The distinct numbers of a list of markers, in order of first appearance.
pub fn distinct_numbers(ms: &Vec<Marker>) -> (r: Vec<u32>)
    ensures
        r@ == distinct_nums(ms@),
        r@.no_duplicates(),
{
    let mut out: Vec<u32> = Vec::new();
    let mut k: usize = 0;
    proof {
        assert(ms@.take(0) =~= Seq::<Marker>::empty());
    }
    while k < ms.len()
        invariant
            0 <= k <= ms.len(),
            out@ == distinct_nums(ms@.take(k as int)),
            out@.no_duplicates(),
        decreases ms.len() - k,
    {
        proof {
            lemma_take_step(ms@, k as int);
        }
        let n = ms[k].num;
        if !contains_u32(&out, n) {
            out.push(n);
        }
        k = k + 1;
    }
    proof {
        lemma_take_full(ms@);
    }
    out
}

/// The marker numbers of `content`, in order of first appearance, each once.
/// `content` has a marker exactly when this is non-empty.
pub fn markers(content: &str) -> (r: Vec<u32>)
    ensures
        r@ == markers_s(content@),
        r@.no_duplicates(),
{
    let ms = scan_markers(content);
    distinct_numbers(&ms)
}


/// Markers of a character sequence (the same scan as `scan_markers`).
pub fn scan_markers_vec(v: &Vec<char>) -> (r: Vec<Marker>)
    ensures
        r@ == scan_markers_s(v@),
{
    let s = string_of(v);
    scan_markers(s.as_str())
}

// ---------------------------------------------------------------------------
// Bibliography blocks
// ---------------------------------------------------------------------------

/// The line holds nothing but one marker.
pub open spec fn only_marker_s(line: Seq<char>) -> bool {
    let t = trim_s(line);
    let ms = scan_markers_s(t);
    &&& t.len() > 0
    &&& ms.len() == 1
    &&& ms[0].start == 0
    &&& ms[0].end == byte_len(t)
}

/// The whole line, trimmed, is exactly one marker.
pub fn line_is_only_marker(line: &Vec<char>) -> (r: bool)
    ensures
        r == only_marker_s(line@),
{
    let t = trim(line);
    if t.len() == 0 {
        return false;
    }
    let ms = scan_markers_vec(&t);
    if ms.len() != 1 || ms[0].start != 0 {
        return false;
    }
    let tv = string_of(&t);
    let n = str_byte_len(tv.as_str());
    ms[0].end == n
}

/// Run of marker-only lines and whether it ever reached two.
pub open spec fn detach_scan(ls: Seq<Seq<char>>) -> (nat, bool)
    decreases ls.len(),
{
    if ls.len() == 0 {
        (0, false)
    } else {
        let (run, found) = detach_scan(ls.drop_last());
        let line = ls.last();
        if found {
            (run, true)
        } else if only_marker_s(line) {
            (run + 1, run + 1 >= 2)
        } else if trim_s(line).len() > 0 {
            (0, false)
        } else {
            (run, false)
        }
    }
}

/// Two or more consecutive lines (blank lines do not break the run) that are
/// each a lone marker: the markers were copied apart from their entries.
pub open spec fn detached_s(block: Seq<char>) -> bool {
    detach_scan(lines_s(block)).1
}

/// Two lines that each hold only a marker, with nothing but blank lines
/// between them.
pub open spec fn marker_pair(ls: Seq<Seq<char>>) -> bool {
    exists|i: int, j: int|
        0 <= i < j < ls.len() && only_marker_s(#[trigger] ls[i]) && only_marker_s(#[trigger] ls[j])
            && forall|k: int| i < k < j ==> trim_s(#[trigger] ls[k]).len() == 0
}

/// A line holding only a marker, followed by nothing but blank lines.
pub open spec fn marker_pending(ls: Seq<Seq<char>>) -> bool {
    exists|i: int|
        0 <= i < ls.len() && only_marker_s(#[trigger] ls[i]) && forall|k: int|
            i < k < ls.len() ==> trim_s(#[trigger] ls[k]).len() == 0
}

#[verifier::rlimit(60)]
#[verifier::spinoff_prover]
proof fn lemma_detach_scan(ls: Seq<Seq<char>>)
    ensures
        detach_scan(ls).1 == marker_pair(ls),
        !detach_scan(ls).1 ==> detach_scan(ls).0 <= 1 && (detach_scan(ls).0 == 1 <==> marker_pending(
            ls,
        )),
    decreases ls.len(),
{
    if ls.len() > 0 {
        let p = ls.drop_last();
        lemma_detach_scan(p);
        let line = ls.last();
        let last = ls.len() - 1;
        assert forall|k: int| 0 <= k < p.len() implies #[trigger] ls[k] == p[k] by {}
        if detach_scan(p).1 {
            let (i, j) = choose|i: int, j: int|
                0 <= i < j < p.len() && only_marker_s(#[trigger] p[i]) && only_marker_s(#[trigger] p[j])
                    && forall|k: int| i < k < j ==> trim_s(#[trigger] p[k]).len() == 0;
            assert(ls[i] == p[i] && ls[j] == p[j]);
            assert forall|k: int| i < k < j implies trim_s(#[trigger] ls[k]).len() == 0 by {
                assert(ls[k] == p[k]);
            }
            assert(marker_pair(ls));
        } else {
            if marker_pair(ls) {
                let (i, j) = choose|i: int, j: int|
                    0 <= i < j < ls.len() && only_marker_s(#[trigger] ls[i]) && only_marker_s(
                        #[trigger] ls[j],
                    ) && forall|k: int| i < k < j ==> trim_s(#[trigger] ls[k]).len() == 0;
                if j < last {
                    assert(p[i] == ls[i] && p[j] == ls[j]);
                    assert forall|k: int| i < k < j implies trim_s(#[trigger] p[k]).len() == 0 by {
                        assert(ls[k] == p[k]);
                    }
                    assert(marker_pair(p));
                    assert(false);
                } else {
                    assert(only_marker_s(line));
                    assert(p[i] == ls[i]);
                    assert forall|k: int| i < k < p.len() implies trim_s(#[trigger] p[k]).len() == 0 by {
                        assert(ls[k] == p[k]);
                    }
                    assert(marker_pending(p));
                }
            }
            if only_marker_s(line) {
                if marker_pending(p) {
                    let i = choose|i: int|
                        0 <= i < p.len() && only_marker_s(#[trigger] p[i]) && forall|k: int|
                            i < k < p.len() ==> trim_s(#[trigger] p[k]).len() == 0;
                    assert(ls[i] == p[i]);
                    assert forall|k: int| i < k < last implies trim_s(#[trigger] ls[k]).len() == 0 by {
                        assert(ls[k] == p[k]);
                    }
                    assert(only_marker_s(ls[last]));
                    assert(marker_pair(ls));
                } else {
                    assert(only_marker_s(ls[last]));
                    assert(marker_pending(ls));
                }
            } else if trim_s(line).len() > 0 {
                if marker_pending(ls) {
                    let i = choose|i: int|
                        0 <= i < ls.len() && only_marker_s(#[trigger] ls[i]) && forall|k: int|
                            i < k < ls.len() ==> trim_s(#[trigger] ls[k]).len() == 0;
                    if i < last {
                        assert(trim_s(ls[last]).len() == 0);
                    }
                }
            } else {
                if marker_pending(ls) {
                    let i = choose|i: int|
                        0 <= i < ls.len() && only_marker_s(#[trigger] ls[i]) && forall|k: int|
                            i < k < ls.len() ==> trim_s(#[trigger] ls[k]).len() == 0;
                    assert(i < last);
                    assert(p[i] == ls[i]);
                    assert forall|k: int| i < k < p.len() implies trim_s(#[trigger] p[k]).len() == 0 by {
                        assert(ls[k] == p[k]);
                    }
                    assert(marker_pending(p));
                }
                if marker_pending(p) {
                    let i = choose|i: int|
                        0 <= i < p.len() && only_marker_s(#[trigger] p[i]) && forall|k: int|
                            i < k < p.len() ==> trim_s(#[trigger] p[k]).len() == 0;
                    assert(ls[i] == p[i]);
                    assert forall|k: int| i < k < ls.len() implies trim_s(#[trigger] ls[k]).len() == 0 by {
                        if k < last {
                            assert(ls[k] == p[k]);
                        }
                    }
                    assert(marker_pending(ls));
                }
            }
        }
    }
}

/// A bibliography block counts as detached exactly when two of its lines
/// each hold only a marker (trimmed, the line is one scanned marker from
/// its first byte to its last: `only_marker_s`) with nothing but blank
/// lines between them.
pub proof fn law_detached_is_a_marker_pair(block: Seq<char>)
    ensures
        detached_s(block) <==> exists|i: int, j: int|
            0 <= i < j < lines_s(block).len() && only_marker_s(#[trigger] lines_s(block)[i])
                && only_marker_s(#[trigger] lines_s(block)[j]) && forall|k: int|
                i < k < j ==> trim_s(#[trigger] lines_s(block)[k]).len() == 0,
{
    lemma_detach_scan(lines_s(block));
}

fn detached_vec(v: &Vec<char>) -> (r: bool)
    ensures
        r == detached_s(v@),
{
    let ls = lines(v);
    let mut run: usize = 0;
    let mut i: usize = 0;
    let ghost lv = vviews(ls@);
    proof {
        assert(lv.take(0) =~= Seq::<Seq<char>>::empty());
    }
    while i < ls.len()
        invariant
            0 <= i <= ls.len(),
            lv == vviews(ls@),
            lv == lines_s(v@),
            lv.len() == ls.len(),
            run <= i,
            detach_scan(lv.take(i as int)) == (run as nat, false),
        decreases ls.len() - i,
    {
        proof {
            lemma_take_step(lv, i as int);
            assert(lv[i as int] == ls@[i as int]@);
        }
        let line = &ls[i];
        if line_is_only_marker(line) {
            run = run + 1;
            if run >= 2 {
                proof {
                    assert(detach_scan(lv.take(i + 1)).1);
                    lemma_detach_found_stays(lv, i + 1);
                    lemma_take_full(lv);
                }
                return true;
            }
        } else {
            let t = trim(line);
            if t.len() > 0 {
                run = 0;
            }
        }
        i = i + 1;
    }
    proof {
        lemma_take_full(lv);
    }
    false
}

proof fn lemma_detach_found_stays(ls: Seq<Seq<char>>, k: int)
    requires
        0 <= k <= ls.len(),
        detach_scan(ls.take(k)).1,
    ensures
        detach_scan(ls).1,
    decreases ls.len() - k,
{
    if k < ls.len() {
        lemma_take_step(ls, k);
        lemma_detach_found_stays(ls, k + 1);
    } else {
        lemma_take_full(ls);
    }
}

/// Whether the markers of a bibliography block were copied apart from the
/// entries: two or more consecutive lines (blank lines do not break the run)
/// that each hold only one marker.
pub fn markers_detached_from_text(block: &str) -> (r: bool)
    ensures
        r == detached_s(block@),
{
    let v = chars_of(block);
    detached_vec(&v)
}

/// State of splitting a detached block into leading marker lines and body:
/// heads, body lines, whether the body started, and whether it failed.
pub open spec fn prefix_scan(ls: Seq<Seq<char>>) -> (Seq<Seq<char>>, Seq<Seq<char>>, bool, bool)
    decreases ls.len(),
{
    if ls.len() == 0 {
        (seq![], seq![], false, false)
    } else {
        let (heads, body, in_body, failed) = prefix_scan(ls.drop_last());
        let line = ls.last();
        if failed {
            (heads, body, in_body, true)
        } else if !in_body && only_marker_s(line) {
            (heads.push(trim_s(line)), body, false, false)
        } else if !in_body && trim_s(line).len() == 0 {
            (heads, body, false, false)
        } else if only_marker_s(line) {
            (heads, body, true, true)
        } else {
            (heads, body.push(line), true, false)
        }
    }
}

/// `lines.join("\n")`.
pub open spec fn join_lines(ls: Seq<Seq<char>>) -> Seq<char>
    decreases ls.len(),
{
    if ls.len() == 0 {
        seq![]
    } else if ls.len() == 1 {
        ls[0]
    } else {
        join_lines(ls.drop_last()) + seq!['\n'] + ls.last()
    }
}

/// The leading marker lines (trimmed) and the rest joined by newlines; none
/// when a marker-only line appears inside the body or fewer than two heads.
pub open spec fn split_prefix_s(block: Seq<char>) -> Option<(Seq<Seq<char>>, Seq<char>)> {
    let (heads, body, _, failed) = prefix_scan(lines_s(block));
    if failed || heads.len() < 2 {
        None
    } else {
        Some((heads, join_lines(body)))
    }
}

fn join_lines_vec(ls: &Vec<Vec<char>>) -> (r: Vec<char>)
    ensures
        r@ == join_lines(vviews(ls@)),
{
    let mut out: Vec<char> = Vec::new();
    let mut i: usize = 0;
    let ghost lv = vviews(ls@);
    proof {
        assert(lv.take(0) =~= Seq::<Seq<char>>::empty());
    }
    while i < ls.len()
        invariant
            0 <= i <= ls.len(),
            lv == vviews(ls@),
            lv.len() == ls.len(),
            out@ == join_lines(lv.take(i as int)),
        decreases ls.len() - i,
    {
        proof {
            lemma_take_step(lv, i as int);
            assert(lv[i as int] == ls@[i as int]@);
        }
        if i > 0 {
            out.push('\n');
        }
        crate::text::append(&mut out, &ls[i]);
        proof {
            if i == 0 {
                assert(lv.take(1).len() == 1);
                assert(out@ =~= join_lines(lv.take(1)));
            } else {
                assert(out@ =~= join_lines(lv.take(i + 1)));
            }
        }
        i = i + 1;
    }
    proof {
        lemma_take_full(lv);
    }
    out
}

fn split_detached_prefix(v: &Vec<char>) -> (r: Option<(Vec<Vec<char>>, Vec<char>)>)
    ensures
        r matches Some((h, b)) ==> split_prefix_s(v@) == Some((vviews(h@), b@)),
        r is None ==> split_prefix_s(v@) is None,
{
    let ls = lines(v);
    let ghost lv = vviews(ls@);
    let mut heads: Vec<Vec<char>> = Vec::new();
    let mut body: Vec<Vec<char>> = Vec::new();
    let mut in_body = false;
    let mut i: usize = 0;
    proof {
        assert(lv.take(0) =~= Seq::<Seq<char>>::empty());
        assert(vviews(heads@) =~= Seq::<Seq<char>>::empty());
        assert(vviews(body@) =~= Seq::<Seq<char>>::empty());
    }
    while i < ls.len()
        invariant
            0 <= i <= ls.len(),
            lv == vviews(ls@),
            lv == lines_s(v@),
            lv.len() == ls.len(),
            prefix_scan(lv.take(i as int)) == (vviews(heads@), vviews(body@), in_body, false),
        decreases ls.len() - i,
    {
        proof {
            lemma_take_step(lv, i as int);
            assert(lv[i as int] == ls@[i as int]@);
        }
        let line = &ls[i];
        let only = line_is_only_marker(line);
        if !in_body && only {
            let t = trim(line);
            let ghost h0 = heads@;
            heads.push(t);
            proof {
                assert(vviews(heads@) =~= vviews(h0).push(t@));
            }
        } else {
            let t = trim(line);
            if !in_body && t.len() == 0 {
            } else {
                in_body = true;
                if only {
                    proof {
                        assert(prefix_scan(lv.take(i + 1)).3);
                        lemma_prefix_failed_stays(lv, i + 1);
                        lemma_take_full(lv);
                    }
                    return None;
                }
                let ghost b0 = body@;
                let lc = slice(line, 0, line.len());
                proof {
                    assert(line@.subrange(0, line@.len() as int) =~= line@);
                }
                body.push(lc);
                proof {
                    assert(vviews(body@) =~= vviews(b0).push(line@));
                }
            }
        }
        i = i + 1;
    }
    proof {
        lemma_take_full(lv);
    }
    if heads.len() < 2 {
        return None;
    }
    let joined = join_lines_vec(&body);
    Some((heads, joined))
}

proof fn lemma_prefix_failed_stays(ls: Seq<Seq<char>>, k: int)
    requires
        0 <= k <= ls.len(),
        prefix_scan(ls.take(k)).3,
    ensures
        prefix_scan(ls).3,
    decreases ls.len() - k,
{
    if k < ls.len() {
        lemma_take_step(ls, k);
        lemma_prefix_failed_stays(ls, k + 1);
    } else {
        lemma_take_full(ls);
    }
}


// ---- heuristics for cutting a detached body into entries ----

pub open spec fn fw_fold_char(c: char) -> char {
    if '\u{ff01}' <= c <= '\u{ff5e}' {
        ((c as u32) - 0xfee0) as char
    } else if c == '\u{3000}' {
        ' '
    } else {
        c
    }
}

/// Full-width ASCII forms (and the ideographic space) folded to half width.
pub open spec fn fold_fullwidth_s(s: Seq<char>) -> Seq<char> {
    s.map_values(|c: char| fw_fold_char(c))
}

fn fold_fullwidth_ascii(v: &Vec<char>) -> (r: Vec<char>)
    ensures
        r@ == fold_fullwidth_s(v@),
{
    let mut r: Vec<char> = Vec::new();
    let mut i: usize = 0;
    while i < v.len()
        invariant
            0 <= i <= v.len(),
            r@ == fold_fullwidth_s(v@.take(i as int)),
        decreases v.len() - i,
    {
        let c = v[i];
        let f = if '\u{ff01}' <= c && c <= '\u{ff5e}' {
            char_of_ascii((c as u32) - 0xfee0)
        } else if c == '\u{3000}' {
            ' '
        } else {
            c
        };
        r.push(f);
        proof {
            assert(r@ =~= fold_fullwidth_s(v@.take(i + 1)));
        }
        i = i + 1;
    }
    proof {
        lemma_take_full(v@);
    }
    r
}

pub open spec fn ascii_lower_s(s: Seq<char>) -> Seq<char> {
    s.map_values(|c: char| ascii_lower(c))
}

pub fn ascii_lowercase(v: &Vec<char>) -> (r: Vec<char>)
    ensures
        r@ == ascii_lower_s(v@),
{
    let mut r: Vec<char> = Vec::new();
    let mut i: usize = 0;
    while i < v.len()
        invariant
            0 <= i <= v.len(),
            r@ == ascii_lower_s(v@.take(i as int)),
        decreases v.len() - i,
    {
        r.push(to_ascii_lower(v[i]));
        proof {
            assert(r@ =~= ascii_lower_s(v@.take(i + 1)));
        }
        i = i + 1;
    }
    proof {
        lemma_take_full(v@);
    }
    r
}

pub open spec fn is_cjk_s(c: char) -> bool {
    ('\u{4e00}' <= c <= '\u{9fff}') || ('\u{3400}' <= c <= '\u{4dbf}')
}

fn is_cjk(c: char) -> (b: bool)
    ensures
        b == is_cjk_s(c),
{
    ('\u{4e00}' <= c && c <= '\u{9fff}') || ('\u{3400}' <= c && c <= '\u{4dbf}')
}

pub open spec fn continuation_punct(c: char) -> bool {
    c == ',' || c == '.' || c == ';' || c == ':' || c == ')' || c == ']' || c == '(' || c == '"'
        || c == '\'' || c == '，' || c == '。' || c == '；' || c == '：' || c == '）' || c == '、'
        || c == '（' || c == '“' || c == '”' || c == '—' || c == '-' || c == '–'
}

pub open spec fn continuation_word(lower: Seq<char>) -> bool {
    ||| starts_with_s(lower, "vol."@)
    ||| starts_with_s(lower, "vol "@)
    ||| starts_with_s(lower, "no."@)
    ||| starts_with_s(lower, "no "@)
    ||| starts_with_s(lower, "pp."@)
    ||| starts_with_s(lower, "p."@)
    ||| starts_with_s(lower, "and "@)
    ||| starts_with_s(lower, "& "@)
    ||| starts_with_s(lower, "of "@)
    ||| starts_with_s(lower, "the "@)
    ||| starts_with_s(lower, "in "@)
}

/// The line continues the previous entry (page numbers, lower-case text,
/// punctuation, "vol.", "pp.", ...).
pub open spec fn looks_like_continuation_s(line: Seq<char>) -> bool {
    let raw = trim_s(line);
    if starts_with_s(raw, "第"@) {
        true
    } else {
        let t = fold_fullwidth_s(raw);
        if t.len() == 0 {
            false
        } else {
            is_lowercase_char(t[0]) || is_digit(t[0]) || continuation_punct(t[0]) || continuation_word(
                ascii_lower_s(t),
            )
        }
    }
}

fn looks_like_continuation(line: &Vec<char>) -> (r: bool)
    ensures
        r == looks_like_continuation_s(line@),
{
    let raw = trim(line);
    if starts_with_str(&raw, "第") {
        return true;
    }
    let t = fold_fullwidth_ascii(&raw);
    if t.len() == 0 {
        return false;
    }
    let first = t[0];
    if char_is_lowercase(first) || is_ascii_digit(first) {
        return true;
    }
    if first == ',' || first == '.' || first == ';' || first == ':' || first == ')' || first == ']'
        || first == '(' || first == '"' || first == '\'' || first == '，' || first == '。'
        || first == '；' || first == '：' || first == '）' || first == '、' || first == '（'
        || first == '“' || first == '”' || first == '—' || first == '-' || first == '–' {
        return true;
    }
    let lower = ascii_lowercase(&t);
    starts_with_str(&lower, "vol.") || starts_with_str(&lower, "vol ") || starts_with_str(
        &lower,
        "no.",
    ) || starts_with_str(&lower, "no ") || starts_with_str(&lower, "pp.") || starts_with_str(
        &lower,
        "p.",
    ) || starts_with_str(&lower, "and ") || starts_with_str(&lower, "& ") || starts_with_str(
        &lower,
        "of ",
    ) || starts_with_str(&lower, "the ") || starts_with_str(&lower, "in ")
}

/// The line clearly opens a new entry ("参见", "转引自", "见", or a CJK
/// ideograph other than "第").
pub open spec fn strongly_new_entry_s(line: Seq<char>) -> bool {
    let t = trim_s(line);
    ||| starts_with_s(t, "参见"@)
    ||| starts_with_s(t, "转引自"@)
    ||| starts_with_s(t, "见"@)
    ||| (t.len() > 0 && is_cjk_s(t[0]) && !starts_with_s(t, "第"@))
}

fn strongly_new_entry(line: &Vec<char>) -> (r: bool)
    ensures
        r == strongly_new_entry_s(line@),
{
    let t = trim(line);
    if starts_with_str(&t, "参见") || starts_with_str(&t, "转引自") || starts_with_str(&t, "见") {
        return true;
    }
    t.len() > 0 && is_cjk(t[0]) && !starts_with_str(&t, "第")
}

/// The previous group ends like a finished entry (。 . 页 号).
pub open spec fn prev_looks_finished_s(prev: Seq<char>) -> bool {
    let t = fold_fullwidth_s(trim_end_s(prev));
    ends_with_s(t, "。"@) || ends_with_s(t, "."@) || ends_with_s(t, "页"@) || ends_with_s(t, "号"@)
}

fn prev_looks_finished(prev: &Vec<char>) -> (r: bool)
    ensures
        r == prev_looks_finished_s(prev@),
{
    let e = trim_end(prev);
    let t = fold_fullwidth_ascii(&e);
    ends_with_str(&t, "。") || ends_with_str(&t, ".") || ends_with_str(&t, "页") || ends_with_str(
        &t,
        "号",
    )
}

pub open spec fn should_start_new_s(prev: Seq<char>, line: Seq<char>) -> bool {
    !looks_like_continuation_s(line) && (strongly_new_entry_s(line) || prev_looks_finished_s(prev))
}

fn should_start_new(prev: &Vec<char>, line: &Vec<char>) -> (r: bool)
    ensures
        r == should_start_new_s(prev@, line@),
{
    if looks_like_continuation(line) {
        return false;
    }
    strongly_new_entry(line) || prev_looks_finished(prev)
}

/// Trimmed non-blank lines.
pub open spec fn nonblank_trimmed(ls: Seq<Seq<char>>) -> Seq<Seq<char>>
    decreases ls.len(),
{
    if ls.len() == 0 {
        seq![]
    } else if trim_s(ls.last()).len() > 0 {
        nonblank_trimmed(ls.drop_last()).push(trim_s(ls.last()))
    } else {
        nonblank_trimmed(ls.drop_last())
    }
}

pub open spec fn sat_sub(a: int, b: int) -> int {
    if a >= b {
        a - b
    } else {
        0
    }
}

/// One line of grouping `total` lines into `n` entries: start a new entry when
/// both are possible and the line looks new, otherwise continue the last one;
/// fail when neither keeps the count reachable.
pub open spec fn group_step(g: Seq<Seq<char>>, i: int, line: Seq<char>, total: int, n: int) -> (
    Seq<Seq<char>>,
    bool,
) {
    if g.len() == 0 {
        (g.push(line), false)
    } else {
        let r = total - i;
        let k = g.len() as int;
        let can_merge = sat_sub(r, 1) >= sat_sub(n, k);
        let can_start_new = k < n && r >= sat_sub(n, k);
        if can_start_new && (!can_merge || should_start_new_s(g.last(), line)) {
            (g.push(line), false)
        } else if can_merge {
            (g.drop_last().push(g.last() + seq![' '] + line), false)
        } else {
            (g, true)
        }
    }
}

pub open spec fn group_state(ls: Seq<Seq<char>>, n: int, i: int) -> (Seq<Seq<char>>, bool)
    decreases i,
{
    if i <= 0 {
        (seq![], false)
    } else {
        let (g, failed) = group_state(ls, n, i - 1);
        if failed {
            (g, true)
        } else {
            group_step(g, i - 1, ls[i - 1], ls.len() as int, n)
        }
    }
}

/// The body cut into exactly `n` entries, if that can be done.
pub open spec fn split_body_s(n: int, body: Seq<char>) -> Option<Seq<Seq<char>>> {
    let ls = nonblank_trimmed(lines_s(body));
    if ls.len() < n {
        None
    } else if ls.len() == n {
        Some(ls)
    } else {
        let (g, failed) = group_state(ls, n, ls.len() as int);
        if failed || g.len() != n {
            None
        } else {
            Some(g)
        }
    }
}

fn nonblank_lines(body: &Vec<char>) -> (r: Vec<Vec<char>>)
    ensures
        vviews(r@) == nonblank_trimmed(lines_s(body@)),
{
    let ls = lines(body);
    let ghost lv = vviews(ls@);
    let mut out: Vec<Vec<char>> = Vec::new();
    let mut i: usize = 0;
    proof {
        assert(lv.take(0) =~= Seq::<Seq<char>>::empty());
        assert(vviews(out@) =~= Seq::<Seq<char>>::empty());
    }
    while i < ls.len()
        invariant
            0 <= i <= ls.len(),
            lv == vviews(ls@),
            lv.len() == ls.len(),
            vviews(out@) == nonblank_trimmed(lv.take(i as int)),
        decreases ls.len() - i,
    {
        proof {
            lemma_take_step(lv, i as int);
            assert(lv[i as int] == ls@[i as int]@);
        }
        let t = trim(&ls[i]);
        if t.len() > 0 {
            let ghost o = out@;
            out.push(t);
            proof {
                assert(vviews(out@) =~= vviews(o).push(t@));
            }
        }
        i = i + 1;
    }
    proof {
        lemma_take_full(lv);
    }
    out
}

fn split_body_into(n: usize, body: &Vec<char>) -> (r: Option<Vec<Vec<char>>>)
    ensures
        r matches Some(g) ==> split_body_s(n as int, body@) == Some(vviews(g@)),
        r is None ==> split_body_s(n as int, body@) is None,
{
    let ls = nonblank_lines(body);
    let ghost lv = vviews(ls@);
    if ls.len() < n {
        return None;
    }
    if ls.len() == n {
        return Some(ls);
    }
    let total = ls.len();
    let mut groups: Vec<Vec<char>> = Vec::new();
    let mut i: usize = 0;
    proof {
        assert(vviews(groups@) =~= Seq::<Seq<char>>::empty());
    }
    while i < total
        invariant
            0 <= i <= total,
            total == ls.len(),
            lv == vviews(ls@),
            lv.len() == total,
            total > n,
            groups.len() <= i,
            lv == nonblank_trimmed(lines_s(body@)),
            group_state(lv, n as int, i as int) == (vviews(groups@), false),
        decreases total - i,
    {
        proof {
            assert(lv[i as int] == ls@[i as int]@);
        }
        let line = &ls[i];
        if groups.len() == 0 {
            let ghost g0 = groups@;
            groups.push(slice(line, 0, line.len()));
            proof {
                assert(line@.subrange(0, line@.len() as int) =~= line@);
                assert(vviews(groups@) =~= vviews(g0).push(line@));
            }
        } else {
            let r = total - i;
            let k = groups.len();
            let can_merge = (if r >= 1 {
                r - 1
            } else {
                0
            }) >= (if n >= k {
                n - k
            } else {
                0
            });
            let can_start_new = k < n && r >= (if n >= k {
                n - k
            } else {
                0
            });
            let start_new = can_start_new && (!can_merge || should_start_new(
                &groups[k - 1],
                line,
            ));
            proof {
                assert(vviews(groups@).last() == groups@[k - 1]@);
            }
            if start_new {
                let ghost g0 = groups@;
                groups.push(slice(line, 0, line.len()));
                proof {
                    assert(line@.subrange(0, line@.len() as int) =~= line@);
                    assert(vviews(groups@) =~= vviews(g0).push(line@));
                }
            } else if can_merge {
                let ghost g0 = groups@;
                let ghost lastold = g0[k - 1]@;
                let mut last = groups.pop().unwrap();
                proof {
                    assert(last@ == lastold);
                    assert(groups@ == g0.drop_last());
                }
                last.push(' ');
                crate::text::append(&mut last, line);
                proof {
                    assert(last@ =~= lastold + seq![' '] + line@);
                }
                let ghost g1 = groups@;
                groups.push(last);
                proof {
                    assert(vviews(g1) =~= vviews(g0).drop_last());
                    assert(vviews(g0).last() == lastold);
                    assert(vviews(groups@) =~= vviews(g1).push(lastold + seq![' '] + line@));
                }
            } else {
                proof {
                    assert(group_state(lv, n as int, i + 1) == group_step(
                        vviews(groups@),
                        i as int,
                        lv[i as int],
                        total as int,
                        n as int,
                    ));
                    lemma_group_failed_stays(lv, n as int, i + 1);
                }
                return None;
            }
        }
        i = i + 1;
    }
    if groups.len() == n {
        Some(groups)
    } else {
        None
    }
}

proof fn lemma_group_failed_stays(ls: Seq<Seq<char>>, n: int, k: int)
    requires
        0 <= k <= ls.len(),
        group_state(ls, n, k).1,
    ensures
        group_state(ls, n, ls.len() as int).1,
    decreases ls.len() - k,
{
    if k < ls.len() {
        lemma_group_failed_stays(ls, n, k + 1);
    }
}

/// Marker heads and entries put back together, one `head entry` per line.
pub open spec fn join_entries(heads: Seq<Seq<char>>, entries: Seq<Seq<char>>, k: int) -> Seq<char>
    decreases k,
{
    if k <= 0 {
        seq![]
    } else {
        let p = join_entries(heads, entries, k - 1);
        let p1 = if p.len() > 0 {
            p.push('\n')
        } else {
            p
        };
        p1 + heads[k - 1] + seq![' '] + trim_s(entries[k - 1])
    }
}

pub open spec fn min_int(a: int, b: int) -> int {
    if a <= b {
        a
    } else {
        b
    }
}

/// The block rewritten with each marker in front of its own entry, when the
/// markers were detached and the body splits into as many entries.
pub open spec fn reattach_s(block: Seq<char>) -> Option<Seq<char>> {
    if !detached_s(block) {
        None
    } else {
        match split_prefix_s(block) {
            None => None,
            Some((heads, body)) => if heads.len() < 2 {
                None
            } else {
                match split_body_s(heads.len() as int, body) {
                    None => None,
                    Some(es) => Some(
                        join_entries(heads, es, min_int(heads.len() as int, es.len() as int)),
                    ),
                }
            },
        }
    }
}

fn reattach_vec(v: &Vec<char>) -> (r: Option<Vec<char>>)
    ensures
        r matches Some(x) ==> reattach_s(v@) == Some(x@),
        r is None ==> reattach_s(v@) is None,
{
    if !detached_vec(v) {
        return None;
    }
    let (heads, body) = match split_detached_prefix(v) {
        Some(p) => p,
        None => {
            return None;
        },
    };
    if heads.len() < 2 {
        return None;
    }
    let entries = match split_body_into(heads.len(), &body) {
        Some(e) => e,
        None => {
            return None;
        },
    };
    let ghost hv = vviews(heads@);
    let ghost ev = vviews(entries@);
    let mut out: Vec<char> = Vec::new();
    let mut k: usize = 0;
    while k < heads.len() && k < entries.len()
        invariant
            0 <= k <= heads.len(),
            k <= entries.len(),
            hv == vviews(heads@),
            ev == vviews(entries@),
            out@ == join_entries(hv, ev, k as int),
        decreases heads.len() - k,
    {
        proof {
            assert(hv[k as int] == heads@[k as int]@);
            assert(ev[k as int] == entries@[k as int]@);
        }
        if out.len() > 0 {
            out.push('\n');
        }
        crate::text::append(&mut out, &heads[k]);
        out.push(' ');
        let t = trim(&entries[k]);
        crate::text::append(&mut out, &t);
        proof {
            assert(out@ =~= join_entries(hv, ev, k + 1));
        }
        k = k + 1;
    }
    Some(out)
}

/// Puts markers that were copied apart from their entries back in front of
/// them, in order. `None` unless the block is detached and its body can be
/// cut into exactly as many entries as there are markers: it does not guess.
pub fn reattach_detached_markers(block: &str) -> (r: Option<String>)
    ensures
        r matches Some(x) ==> reattach_s(block@) == Some(x@),
        r is None ==> reattach_s(block@) is None,
{
    let v = chars_of(block);
    match reattach_vec(&v) {
        Some(x) => Some(string_of(&x)),
        None => None,
    }
}


// ---- picking one entry out of a block ----

/// Only spaces, tabs and ideographic spaces stand between the last line break
/// (or the start) and the end of `prefix`.
pub open spec fn line_start_before(prefix: Seq<char>) -> bool
    decreases prefix.len(),
{
    if prefix.len() == 0 {
        true
    } else {
        let c = prefix.last();
        if c == ' ' || c == '\t' || c == '\u{3000}' {
            line_start_before(prefix.drop_last())
        } else {
            c == '\n' || c == '\r'
        }
    }
}

/// Byte offset `pos` of `s` begins a line (after indentation).
pub open spec fn is_line_start_s(s: Seq<char>, pos: int) -> bool {
    match char_index_of(s, pos) {
        Some(k) => line_start_before(s.take(k)),
        None => false,
    }
}

fn is_line_start(v: &Vec<char>, pos: usize) -> (r: bool)
    ensures
        r == is_line_start_s(v@, pos as int),
{
    let k = match crate::text::char_index_at_byte(v, pos) {
        Some(k) => k,
        None => {
            return false;
        },
    };
    let mut j: usize = k;
    proof {
        assert(v@.take(k as int) =~= v@.take(j as int));
    }
    while j > 0
        invariant
            0 <= j <= k <= v.len(),
            char_index_of(v@, pos as int) == Some(k as int),
            line_start_before(v@.take(k as int)) == line_start_before(v@.take(j as int)),
        decreases j,
    {
        let c = v[j - 1];
        proof {
            assert(v@.take(j as int).last() == v@[j - 1]);
            assert(v@.take(j as int).drop_last() =~= v@.take(j - 1));
        }
        if !(c == ' ' || c == '\t' || c == '\u{3000}') {
            proof {
                assert(line_start_before(v@.take(j as int)) == (c == '\n' || c == '\r'));
            }
            return c == '\n' || c == '\r';
        }
        j = j - 1;
    }
    true
}

pub open spec fn line_start_markers(s: Seq<char>, ms: Seq<Marker>) -> Seq<Marker>
    decreases ms.len(),
{
    if ms.len() == 0 {
        seq![]
    } else if is_line_start_s(s, ms.last().start as int) {
        line_start_markers(s, ms.drop_last()).push(ms.last())
    } else {
        line_start_markers(s, ms.drop_last())
    }
}

/// Index of the first marker numbered `n`.
pub open spec fn index_of_num(ms: Seq<Marker>, n: u32) -> Option<int>
    decreases ms.len(),
{
    if ms.len() == 0 {
        None
    } else {
        match index_of_num(ms.drop_last(), n) {
            Some(i) => Some(i),
            None => if ms.last().num == n {
                Some(ms.len() - 1)
            } else {
                None
            },
        }
    }
}

pub open spec fn is_entry_sep(c: char) -> bool {
    c == '、' || c == '.' || c == '．' || c == '：' || c == ':' || c == ')' || c == '）'
}

/// `trim_start_matches` with the separators that often follow a marker.
pub open spec fn strip_seps(s: Seq<char>) -> Seq<char>
    decreases s.len(),
{
    if s.len() > 0 && is_entry_sep(s[0]) {
        strip_seps(s.drop_first())
    } else {
        s
    }
}

/// The markers that delimit entries: those at line starts when there are at
/// least two, otherwise all of them.
pub open spec fn entry_markers(block: Seq<char>) -> Seq<Marker> {
    let all = scan_markers_s(block);
    let ls = line_start_markers(block, all);
    if ls.len() >= 2 {
        ls
    } else {
        all
    }
}

/// The text between marker `n` and the next entry marker (or the end of the
/// block), trimmed and without leading separators; none if empty.
pub open spec fn entry_in(block: Seq<char>, n: u32) -> Option<Seq<char>> {
    let entries = entry_markers(block);
    match index_of_num(entries, n) {
        None => None,
        Some(idx) => {
            let start = entries[idx].end as int;
            let end = if idx + 1 < entries.len() {
                entries[idx + 1].start as int
            } else {
                byte_len(block) as int
            };
            match char_range_of(block, start, end) {
                None => None,
                Some((a, b)) => {
                    let t = trim_s(strip_seps(trim_s(block.subrange(a, b))));
                    if t.len() == 0 {
                        None
                    } else {
                        Some(t)
                    }
                },
            }
        },
    }
}

/// Entry `n` of a bibliography block; a detached block is first put back
/// together, and if that cannot be done no entry is given at all.
pub open spec fn bibliography_entry_s(block: Seq<char>, n: u32) -> Option<Seq<char>> {
    if detached_s(block) {
        match reattach_s(block) {
            Some(r) => entry_in(r, n),
            None => None,
        }
    } else {
        entry_in(block, n)
    }
}

fn strip_separators(v: &Vec<char>) -> (r: Vec<char>)
    ensures
        r@ == strip_seps(v@),
{
    let mut i: usize = 0;
    proof {
        assert(v@.skip(0) =~= v@);
    }
    while i < v.len() && (v[i] == '、' || v[i] == '.' || v[i] == '．' || v[i] == '：' || v[i] == ':'
        || v[i] == ')' || v[i] == '）')
        invariant
            0 <= i <= v.len(),
            strip_seps(v@) == strip_seps(v@.skip(i as int)),
        decreases v.len() - i,
    {
        proof {
            assert(v@.skip(i as int).drop_first() =~= v@.skip(i + 1));
        }
        i = i + 1;
    }
    proof {
        assert(v@.skip(i as int) =~= v@.subrange(i as int, v.len() as int));
    }
    slice(v, i, v.len())
}

fn entry_markers_of(v: &Vec<char>) -> (r: Vec<Marker>)
    ensures
        r@ == entry_markers(v@),
{
    let all = scan_markers_vec(v);
    let mut ls: Vec<Marker> = Vec::new();
    let mut k: usize = 0;
    proof {
        assert(all@.take(0) =~= Seq::<Marker>::empty());
    }
    while k < all.len()
        invariant
            0 <= k <= all.len(),
            ls@ == line_start_markers(v@, all@.take(k as int)),
        decreases all.len() - k,
    {
        proof {
            lemma_take_step(all@, k as int);
        }
        if is_line_start(v, all[k].start) {
            ls.push(all[k]);
        }
        k = k + 1;
    }
    proof {
        lemma_take_full(all@);
    }
    if ls.len() >= 2 {
        ls
    } else {
        all
    }
}

fn index_of_number(ms: &Vec<Marker>, n: u32) -> (r: Option<usize>)
    ensures
        r == (match index_of_num(ms@, n) {
            Some(i) => Some(i as usize),
            None => None::<usize>,
        }),
        r matches Some(i) ==> i < ms.len(),
{
    proof {
        lemma_index_of_num_range(ms@, n);
    }
    let mut k: usize = 0;
    proof {
        assert(ms@.take(0) =~= Seq::<Marker>::empty());
    }
    while k < ms.len()
        invariant
            0 <= k <= ms.len(),
            index_of_num(ms@.take(k as int), n) is None,
        decreases ms.len() - k,
    {
        proof {
            lemma_take_step(ms@, k as int);
        }
        if ms[k].num == n {
            proof {
                lemma_index_of_num_prefix(ms@, n, k as int + 1);
            }
            return Some(k);
        }
        k = k + 1;
    }
    proof {
        lemma_take_full(ms@);
    }
    None
}

proof fn lemma_index_of_num_range(ms: Seq<Marker>, n: u32)
    ensures
        index_of_num(ms, n) matches Some(i) ==> 0 <= i < ms.len() && ms[i].num == n,
    decreases ms.len(),
{
    if ms.len() > 0 {
        lemma_index_of_num_range(ms.drop_last(), n);
    }
}

proof fn lemma_index_of_num_prefix(ms: Seq<Marker>, n: u32, k: int)
    requires
        0 <= k <= ms.len(),
        index_of_num(ms.take(k), n) is Some,
    ensures
        index_of_num(ms, n) == index_of_num(ms.take(k), n),
    decreases ms.len() - k,
{
    if k < ms.len() {
        lemma_take_step(ms, k);
        lemma_index_of_num_prefix(ms, n, k + 1);
    } else {
        lemma_take_full(ms);
    }
}

proof fn lemma_line_start_markers_from(s: Seq<char>, ms: Seq<Marker>)
    ensures
        forall|i: int|
            0 <= i < line_start_markers(s, ms).len() ==> exists|j: int|
                0 <= j < ms.len() && ms[j] == #[trigger] line_start_markers(s, ms)[i],
    decreases ms.len(),
{
    if ms.len() > 0 {
        let p = ms.drop_last();
        lemma_line_start_markers_from(s, p);
        let l = line_start_markers(s, ms);
        let lp = line_start_markers(s, p);
        assert forall|i: int| 0 <= i < l.len() implies exists|j: int|
            0 <= j < ms.len() && ms[j] == #[trigger] l[i] by {
            if i < lp.len() {
                assert(l[i] == lp[i]);
                let j = choose|j: int| 0 <= j < p.len() && p[j] == lp[i];
                assert(ms[j] == p[j]);
            } else {
                assert(l[i] == ms[ms.len() - 1]);
            }
        }
    }
}

/// An entry of a bibliography block is never empty and is already
/// trimmed; a detached block that cannot be put back together gives no
/// entry; and a block that is not detached gives no entry for a number
/// it has no marker for.
pub proof fn law_bibliography_entry_shape(block: Seq<char>, n: u32)
    ensures
        bibliography_entry_s(block, n) matches Some(e) ==> e.len() > 0 && trim_s(e) == e,
        detached_s(block) && reattach_s(block) is None ==> bibliography_entry_s(block, n) is None,
        !detached_s(block) && !markers_s(block).contains(n) ==> bibliography_entry_s(block, n) is None,
{
    let b = if detached_s(block) {
        match reattach_s(block) {
            Some(r) => r,
            None => block,
        }
    } else {
        block
    };
    let entries = entry_markers(b);
    lemma_index_of_num_range(entries, n);
    if let Some(idx) = index_of_num(entries, n) {
        let start = entries[idx].end as int;
        let end = if idx + 1 < entries.len() {
            entries[idx + 1].start as int
        } else {
            byte_len(b) as int
        };
        if let Some((a0, b0)) = char_range_of(b, start, end) {
            crate::text::lemma_trim_idempotent(strip_seps(trim_s(b.subrange(a0, b0))));
        }
        if !detached_s(block) {
            let all = scan_markers_s(block);
            lemma_line_start_markers_from(block, all);
            lemma_distinct_nums(all);
            if line_start_markers(block, all).len() >= 2 {
                let j = choose|j: int|
                    0 <= j < all.len() && all[j] == #[trigger] line_start_markers(block, all)[idx];
                assert(markers_s(block).contains(all[j].num));
            } else {
                assert(markers_s(block).contains(all[idx].num));
            }
        }
    }
}

fn entry_of(v: &Vec<char>, n: u32) -> (r: Option<Vec<char>>)
    ensures
        r matches Some(x) ==> entry_in(v@, n) == Some(x@),
        r is None ==> entry_in(v@, n) is None,
{
    let entries = entry_markers_of(v);
    let idx = match index_of_number(&entries, n) {
        Some(i) => i,
        None => {
            return None;
        },
    };
    let start = entries[idx].end;
    let end = if idx + 1 < entries.len() {
        entries[idx + 1].start
    } else {
        let s = string_of(v);
        str_byte_len(s.as_str())
    };
    proof {
        let ghost es = entry_markers(v@);
        assert(es == entries@);
        lemma_index_of_num_range(es, n);
        assert(index_of_num(es, n) == Some(idx as int));
        assert(start == es[idx as int].end);
        if idx + 1 < entries.len() {
            assert(end == es[idx + 1].start);
        } else {
            assert(end == byte_len(v@));
        }
    }
    let (a, b) = match char_range(v, start, end) {
        Some(p) => p,
        None => {
            proof {
                assert(char_range_of(v@, start as int, end as int) is None);
            }
            return None;
        },
    };
    let piece = slice(v, a, b);
    let t1 = trim(&piece);
    let t2 = strip_separators(&t1);
    let t3 = trim(&t2);
    proof {
        assert(char_range_of(v@, start as int, end as int) == Some((a as int, b as int)));
        assert(t3@ == trim_s(strip_seps(trim_s(v@.subrange(a as int, b as int)))));
    }
    if t3.len() == 0 {
        None
    } else {
        Some(t3)
    }
}

/// Entry `n` of a bibliography block: the text from marker `n` to the next
/// entry marker, trimmed and without a leading separator. Entry markers are
/// those at line starts when there are two or more, otherwise all markers.
/// A block whose markers were copied apart from the entries is first put
/// back together; when that cannot be done no entry is returned, rather than
/// one that belongs to another marker.
pub fn extract_bibliography_entry(block: &str, n: u32) -> (r: Option<String>)
    ensures
        r matches Some(x) ==> bibliography_entry_s(block@, n) == Some(x@),
        r is None ==> bibliography_entry_s(block@, n) is None,
{
    let v = chars_of(block);
    let e = if detached_vec(&v) {
        match reattach_vec(&v) {
            Some(r) => entry_of(&r, n),
            None => None,
        }
    } else {
        entry_of(&v, n)
    };
    match e {
        Some(x) => Some(string_of(&x)),
        None => None,
    }
}

#[verifier::spinoff_prover]
proof fn lemma_prefix_heads(ls: Seq<Seq<char>>)
    ensures
        forall|k: int|
            0 <= k < prefix_scan(ls).0.len() ==> exists|i: int|
                0 <= i < ls.len() && only_marker_s(ls[i]) && #[trigger] prefix_scan(ls).0[k] == trim_s(
                    ls[i],
                ),
    decreases ls.len(),
{
    if ls.len() > 0 {
        let p = ls.drop_last();
        lemma_prefix_heads(p);
        let h = prefix_scan(ls).0;
        let hp = prefix_scan(p).0;
        assert forall|k: int| 0 <= k < h.len() implies exists|i: int|
            0 <= i < ls.len() && only_marker_s(ls[i]) && #[trigger] h[k] == trim_s(ls[i]) by {
            if k < hp.len() {
                assert(h[k] == hp[k]);
                let i = choose|i: int| 0 <= i < p.len() && only_marker_s(p[i]) && hp[k] == trim_s(p[i]);
                assert(ls[i] == p[i]);
            } else {
                let i = ls.len() - 1;
                assert(only_marker_s(ls[i]));
                assert(h[k] == trim_s(ls[i]));
            }
        }
    }
}

/// A block put back together is one line per marker head: each head (a
/// line of the block that holds only a marker, trimmed) followed by a
/// space and its own entry, with as many entries as heads, at least two.
pub proof fn law_reattached_shape(block: Seq<char>)
    ensures
        reattach_s(block) matches Some(out) ==> detached_s(block) && match split_prefix_s(block) {
            Some((heads, body)) => heads.len() >= 2 && match split_body_s(heads.len() as int, body) {
                Some(es) => es.len() == heads.len() && out == join_entries(
                    heads,
                    es,
                    heads.len() as int,
                ) && forall|k: int|
                    0 <= k < heads.len() ==> exists|i: int|
                        0 <= i < lines_s(block).len() && only_marker_s(lines_s(block)[i])
                            && #[trigger] heads[k] == trim_s(lines_s(block)[i]),
                None => false,
            },
            None => false,
        },
{
    lemma_prefix_heads(lines_s(block));
}

// ---------------------------------------------------------------------------
// A scanned numeral or superscript marker reads back to its number
// ---------------------------------------------------------------------------

/// Every character is a superscript digit.
pub open spec fn all_superscript(t: Seq<char>) -> bool {
    forall|i: int| 0 <= i < t.len() ==> (#[trigger] superscript_num(t[i])) is Some
}

/// The value of the superscript digits of `t`, as a natural number.
pub open spec fn superscript_value(t: Seq<char>) -> nat {
    crate::text::digits_value(superscript_digits(t))
}

/// Marker `m` covers the characters `a..b` of `s`, and that text reads
/// back to the marker's number whenever its superscript digits fit in a
/// `u32`.
pub open spec fn marker_covers(s: Seq<char>, m: Marker, a: int, b: int) -> bool {
    &&& 0 <= a < b <= s.len()
    &&& byte_at(s, a) == m.start
    &&& byte_at(s, b) == m.end
    &&& superscript_value(s.subrange(a, b)) <= u32::MAX ==> marker_number_s(s.subrange(a, b)) == Some(
        m.num,
    )
}

proof fn lemma_superscript_char(c: char)
    requires
        superscript_num(c) is Some,
    ensures
        !is_digit(c),
        enclosed_num(c) is None,
        superscript_num(c).unwrap() < 10,
        is_digit(digit_char(superscript_num(c).unwrap() as nat)),
        crate::text::digit_value(digit_char(superscript_num(c).unwrap() as nat)) == superscript_num(
            c,
        ).unwrap(),
{
}

proof fn lemma_superscript_run(t: Seq<char>)
    requires
        all_superscript(t),
    ensures
        ascii_digits(t) == Seq::<char>::empty(),
        superscript_digits(t).len() == t.len(),
        crate::text::all_digits(superscript_digits(t)),
        first_enclosed(t) is None,
    decreases t.len(),
{
    if t.len() > 0 {
        let p = t.drop_last();
        assert forall|i: int| 0 <= i < p.len() implies (#[trigger] superscript_num(p[i])) is Some by {
            assert(p[i] == t[i]);
        }
        lemma_superscript_run(p);
        lemma_superscript_char(t.last());
        assert(superscript_num(t[t.len() - 1]) is Some);
        let sd = superscript_digits(t);
        assert forall|i: int| 0 <= i < sd.len() implies is_digit(#[trigger] sd[i]) by {
            if i < sd.len() - 1 {
                assert(sd[i] == superscript_digits(p)[i]);
            }
        }
        lemma_first_enclosed_none(t);
    }
}

proof fn lemma_first_enclosed_none(t: Seq<char>)
    requires
        all_superscript(t),
    ensures
        first_enclosed(t) is None,
    decreases t.len(),
{
    if t.len() > 0 {
        assert(superscript_num(t[0]) is Some);
        lemma_superscript_char(t[0]);
        let r = t.drop_first();
        assert forall|i: int| 0 <= i < r.len() implies (#[trigger] superscript_num(r[i])) is Some by {
            assert(r[i] == t[i + 1]);
        }
        lemma_first_enclosed_none(r);
    }
}

proof fn lemma_run_reads_back(t: Seq<char>, n: u32)
    requires
        t.len() > 0,
        all_superscript(t),
        superscript_value(t) <= u32::MAX ==> n == superscript_value(t),
    ensures
        superscript_value(t) <= u32::MAX ==> marker_number_s(t) == Some(n),
{
    lemma_superscript_run(t);
}

/// Some characters of `s` are covered by marker `m` as `marker_covers` says.
pub open spec fn is_covered(s: Seq<char>, m: Marker) -> bool {
    exists|a: int, b: int| marker_covers(s, m, a, b)
}

/// What the scan keeps of a pending superscript run: it starts at
/// character `a` and runs to the end of `s`.
pub open spec fn run_covers(s: Seq<char>, a: int, st: usize, en: usize, n: u32) -> bool {
    &&& 0 <= a < s.len()
    &&& byte_at(s, a) == st
    &&& en == byte_len(s)
    &&& all_superscript(s.subrange(a, s.len() as int))
    &&& superscript_value(s.subrange(a, s.len() as int)) <= u32::MAX ==> n == superscript_value(
        s.subrange(a, s.len() as int),
    )
}

/// Some pending run of `s` is kept as `run_covers` says.
pub open spec fn has_run(s: Seq<char>, st: usize, en: usize, n: u32) -> bool {
    exists|a: int| run_covers(s, a, st, en, n)
}

proof fn lemma_prefix_bytes(p: Seq<char>, s: Seq<char>, a: int)
    requires
        s.len() == p.len() + 1,
        s.drop_last() == p,
        0 <= a <= p.len(),
    ensures
        byte_at(s, a) == byte_at(p, a),
{
    assert(s.take(a) =~= p.take(a));
}

proof fn lemma_covers_extend(p: Seq<char>, s: Seq<char>, m: Marker, a: int, b: int)
    requires
        s.len() == p.len() + 1,
        s.drop_last() == p,
        marker_covers(p, m, a, b),
    ensures
        marker_covers(s, m, a, b),
{
    lemma_prefix_bytes(p, s, a);
    lemma_prefix_bytes(p, s, b);
    assert(s.subrange(a, b) =~= p.subrange(a, b));
}

proof fn lemma_run_closes(p: Seq<char>, s: Seq<char>, a: int, st: usize, en: usize, n: u32)
    requires
        s.len() == p.len() + 1,
        s.drop_last() == p,
        run_covers(p, a, st, en, n),
    ensures
        marker_covers(s, Marker { start: st, end: en, num: n }, a, p.len() as int),
{
    lemma_prefix_bytes(p, s, a);
    lemma_prefix_bytes(p, s, p.len() as int);
    assert(p.take(p.len() as int) =~= p);
    let t = p.subrange(a, p.len() as int);
    assert(s.subrange(a, p.len() as int) =~= t);
    lemma_run_reads_back(t, n);
}

proof fn lemma_run_grows(p: Seq<char>, s: Seq<char>, a: int, st: usize, en: usize, n: u32, d: u32)
    requires
        s.len() == p.len() + 1,
        s.drop_last() == p,
        run_covers(p, a, st, en, n),
        superscript_num(s.last()) == Some(d),
        byte_len(s) <= usize::MAX,
    ensures
        run_covers(s, a, st, byte_len(s) as usize, sat_digit(n, d)),
{
    lemma_prefix_bytes(p, s, a);
    let c = s.last();
    lemma_superscript_char(c);
    let t = p.subrange(a, p.len() as int);
    let t2 = s.subrange(a, s.len() as int);
    assert(t2.drop_last() =~= t);
    assert(t2.last() == c);
    assert forall|i: int| 0 <= i < t2.len() implies (#[trigger] superscript_num(t2[i])) is Some by {
        if i < t.len() {
            assert(t2[i] == t[i]);
        }
    }
    let sd2 = superscript_digits(t2);
    assert(sd2 == superscript_digits(t).push(digit_char(d as nat)));
    assert(sd2.drop_last() =~= superscript_digits(t));
    assert(superscript_value(t2) == superscript_value(t) * 10 + d);
}

proof fn lemma_single(s: Seq<char>)
    requires
        s.len() > 0,
        byte_len(s) <= usize::MAX,
    ensures
        enclosed_num(s.last()) matches Some(nn) ==> marker_covers(
            s,
            Marker { start: byte_len(s.drop_last()) as usize, end: byte_len(s) as usize, num: nn },
            s.len() - 1,
            s.len() as int,
        ),
        superscript_num(s.last()) matches Some(d) ==> run_covers(
            s,
            s.len() - 1,
            byte_len(s.drop_last()) as usize,
            byte_len(s) as usize,
            d,
        ),
{
    let p = s.drop_last();
    let c = s.last();
    let last = s.len() - 1;
    assert(s.take(last) =~= p);
    assert(s.take(s.len() as int) =~= s);
    assert(byte_len(s) == byte_len(p) + utf8_width(c));
    let one = s.subrange(last, s.len() as int);
    assert(one =~= seq![c]);
    assert(one.drop_last() =~= Seq::<char>::empty());
    assert(one.drop_first() =~= Seq::<char>::empty());
    assert(one.last() == c);
    assert(one[0] == c);
    if let Some(d) = superscript_num(c) {
        lemma_superscript_char(c);
        assert(all_superscript(one));
        assert(superscript_digits(one.drop_last()) == Seq::<char>::empty());
        let sd = superscript_digits(one);
        assert(sd == Seq::<char>::empty().push(digit_char(d as nat)));
        assert(sd.drop_last() =~= Seq::<char>::empty());
        assert(sd.last() == digit_char(d as nat));
        assert(crate::text::digits_value(sd.drop_last()) == 0);
        assert(superscript_value(one) == d);
    }
    if let Some(nn) = enclosed_num(c) {
        assert(ascii_digits(one.drop_last()) =~= Seq::<char>::empty());
    }
}

proof fn lemma_scan_state(s: Seq<char>)
    requires
        byte_len(s) <= usize::MAX,
    ensures
        forall|k: int|
            #![trigger scan_state(s).0[k]]
            0 <= k < scan_state(s).0.len() ==> is_covered(s, scan_state(s).0[k]),
        scan_state(s).2 matches Some((st, en, n, latin)) ==> has_run(s, st, en, n),
    decreases s.len(),
{
    if s.len() > 0 {
        let p = s.drop_last();
        let c = s.last();
        assert(s.take(p.len() as int) =~= p);
        assert(byte_len(s) == byte_len(p) + utf8_width(c));
        lemma_scan_state(p);
        lemma_single(s);
        let (out, prev, run) = scan_state(p);
        let res = scan_state(s);
        assert(res == scan_step((out, prev, run), c, byte_len(p)));
        let out1 = flush_run(out, run);
        assert forall|k: int| 0 <= k < out.len() implies is_covered(s, #[trigger] out[k]) by {
            let (a, b) = choose|a: int, b: int| marker_covers(p, out[k], a, b);
            lemma_covers_extend(p, s, out[k], a, b);
        }
        if let Some((st, en, n, latin)) = run {
            let a = choose|a: int| #[trigger] run_covers(p, a, st, en, n);
            lemma_run_closes(p, s, a, st, en, n);
            if let Some(d) = superscript_num(c) {
                lemma_run_grows(p, s, a, st, en, n, d);
                assert(scan_state(s).2 == Some((st, byte_len(s) as usize, sat_digit(n, d), latin)));
                assert(run_covers(s, a, st, byte_len(s) as usize, sat_digit(n, d)));
            }
        }
        if !(run is Some && superscript_num(c) is Some) && enclosed_num(c) is None {
            if let Some(d) = superscript_num(c) {
                assert(scan_state(s).2 == Some((byte_len(p) as usize, byte_len(s) as usize, d, match prev {
                    Some(q) => is_alpha(q),
                    None => false,
                })));
                assert(run_covers(
                    s,
                    s.len() - 1,
                    byte_len(p) as usize,
                    byte_len(s) as usize,
                    d,
                ));
            }
        }
        assert forall|k: int| 0 <= k < out1.len() implies is_covered(s, #[trigger] out1[k]) by {
            if k < out.len() {
                assert(out1[k] == out[k]);
            } else {
                let (st, en, n, latin) = run.unwrap();
                assert(!latin);
                assert(out1[k] == Marker { start: st, end: en, num: n });
                let a = choose|a: int| #[trigger] run_covers(p, a, st, en, n);
                lemma_run_closes(p, s, a, st, en, n);
            }
        }
        assert forall|k: int| #![trigger scan_state(s).0[k]]
            0 <= k < scan_state(s).0.len() implies is_covered(s, scan_state(s).0[k]) by {
            if run is Some && superscript_num(c) is Some {
                assert(scan_state(s).0[k] == out[k]);
            } else if k < out1.len() {
                assert(scan_state(s).0[k] == out1[k]);
            } else {
                assert(marker_covers(s, scan_state(s).0[k], s.len() - 1, s.len() as int));
            }
        }
    } else {
        assert(scan_state(s).0.len() == 0);
        assert(scan_state(s).2 is None);
    }
}

/// An enclosed numeral or a run of superscript digits found by the scan
/// reads back, from the text it covers, to the number the scan gave it
/// (for a superscript run, when its digits fit in a `u32`). Bracketed
/// markers are not covered: where they are is the pattern matcher's
/// answer, of which nothing more is stated.
pub proof fn law_numeral_markers_read_back(text: Seq<char>)
    requires
        byte_len(text) <= usize::MAX,
    ensures
        forall|k: int|
            0 <= k < char_markers(text).len() ==> {
                let m = #[trigger] char_markers(text)[k];
                let t = crate::rx::text_of_range(text, m.start as int, m.end as int);
                &&& t.len() > 0
                &&& superscript_value(t) <= u32::MAX ==> marker_number_s(t) == Some(m.num)
            },
{
    lemma_scan_state(text);
    let (out, prev, run) = scan_state(text);
    assert(text.take(text.len() as int) =~= text);
    let cm = char_markers(text);
    assert forall|k: int| 0 <= k < cm.len() implies {
        let m = #[trigger] cm[k];
        let t = crate::rx::text_of_range(text, m.start as int, m.end as int);
        &&& t.len() > 0
        &&& superscript_value(t) <= u32::MAX ==> marker_number_s(t) == Some(m.num)
    } by {
        let m = cm[k];
        let ab: (int, int) = if k < out.len() {
            assert(cm[k] == out[k]);
            choose|a: int, b: int| marker_covers(text, out[k], a, b)
        } else {
            let (st, en, n, latin) = run.unwrap();
            let a = choose|a: int| #[trigger] run_covers(text, a, st, en, n);
            lemma_run_reads_back(text.subrange(a, text.len() as int), n);
            assert(byte_at(text, text.len() as int) == byte_len(text));
            (a, text.len() as int)
        };
        let (a, b) = ab;
        assert(marker_covers(text, m, a, b));
        assert(byte_at(text, a) == m.start);
        assert(crate::text::char_index_of(text, m.start as int) == Some(a)) by {
            let i = choose|i: int| 0 <= i <= text.len() && #[trigger] byte_at(text, i) == m.start as int;
            crate::text::lemma_char_index_unique(text, i, a);
        }
        assert(crate::text::char_index_of(text, m.end as int) == Some(b)) by {
            let i = choose|i: int| 0 <= i <= text.len() && #[trigger] byte_at(text, i) == m.end as int;
            crate::text::lemma_char_index_unique(text, i, b);
        }
    }
}

// ---------------------------------------------------------------------------
// Every scanned marker, bracketed ones included, given the matches
// ---------------------------------------------------------------------------

/// `m` is one of the markers of `x`.
pub open spec fn marker_in(x: Seq<Marker>, m: Marker) -> bool {
    exists|j: int| 0 <= j < x.len() && x[j] == m
}

/// Markers ordered by where they start.
pub open spec fn sorted_by_start(x: Seq<Marker>) -> bool {
    forall|i: int, j: int| 0 <= i < j < x.len() ==> x[i].start <= x[j].start
}

proof fn lemma_insert_by_start(s: Seq<Marker>, m: Marker)
    ensures
        insert_by_start(s, m).len() == s.len() + 1,
        forall|k: int|
            0 <= k < insert_by_start(s, m).len() ==> #[trigger] insert_by_start(s, m)[k] == m
                || marker_in(s, insert_by_start(s, m)[k]),
        sorted_by_start(s) ==> sorted_by_start(insert_by_start(s, m)),
    decreases s.len(),
{
    let ins = insert_by_start(s, m);
    if s.len() > 0 && s.last().start > m.start {
        let p = s.drop_last();
        lemma_insert_by_start(p, m);
        let ip = insert_by_start(p, m);
        assert forall|k: int| 0 <= k < ins.len() implies #[trigger] ins[k] == m || marker_in(s, ins[k]) by {
            if k < ip.len() {
                assert(ins[k] == ip[k]);
                if ip[k] != m {
                    let j = choose|j: int| 0 <= j < p.len() && p[j] == ip[k];
                    assert(s[j] == p[j]);
                }
            } else {
                assert(s[s.len() - 1] == ins[k]);
            }
        }
        if sorted_by_start(s) {
            assert forall|i: int, j: int| 0 <= i < j < p.len() implies p[i].start <= p[j].start by {
                assert(p[i] == s[i] && p[j] == s[j]);
            }
            assert forall|i: int, j: int| 0 <= i < j < ins.len() implies ins[i].start <= ins[j].start by {
                if j < ip.len() {
                    assert(ins[i] == ip[i] && ins[j] == ip[j]);
                } else {
                    assert(ins[i] == ip[i]);
                    if ip[i] != m {
                        let q = choose|q: int| 0 <= q < p.len() && p[q] == ip[i];
                        assert(s[q] == p[q]);
                        assert(s[q].start <= s[s.len() - 1].start);
                    }
                }
            }
        }
    } else {
        assert forall|k: int| 0 <= k < ins.len() implies #[trigger] ins[k] == m || marker_in(s, ins[k]) by {
            if k < s.len() {
                assert(ins[k] == s[k]);
            }
        }
        if sorted_by_start(s) {
            assert forall|i: int, j: int| 0 <= i < j < ins.len() implies ins[i].start <= ins[j].start by {
                if j < s.len() {
                    assert(ins[i] == s[i] && ins[j] == s[j]);
                } else {
                    assert(ins[i] == s[i]);
                    assert(s[i].start <= s[s.len() - 1].start);
                }
            }
        }
    }
}

proof fn lemma_sort_by_start(x: Seq<Marker>)
    ensures
        sort_by_start(x).len() == x.len(),
        sorted_by_start(sort_by_start(x)),
        forall|k: int| 0 <= k < sort_by_start(x).len() ==> marker_in(x, #[trigger] sort_by_start(x)[k]),
    decreases x.len(),
{
    if x.len() > 0 {
        let p = x.drop_last();
        lemma_sort_by_start(p);
        let sp = sort_by_start(p);
        lemma_insert_by_start(sp, x.last());
        let r = sort_by_start(x);
        assert forall|k: int| 0 <= k < r.len() implies marker_in(x, #[trigger] r[k]) by {
            if r[k] == x.last() {
                assert(x[x.len() - 1] == r[k]);
            } else {
                let q = choose|q: int| 0 <= q < sp.len() && sp[q] == r[k];
                assert(marker_in(p, sp[q]));
                let j = choose|j: int| 0 <= j < p.len() && p[j] == sp[q];
                assert(x[j] == p[j]);
            }
        }
    }
}

/// A match of the bracket pattern as the pattern makes it: the ASCII
/// digits of the whole match are exactly the text of its group.
pub open spec fn bracket_match_ok(text: Seq<char>, m: (usize, usize, Option<(usize, usize)>)) -> bool {
    match m.2 {
        Some((g0, g1)) => ascii_digits(crate::rx::text_of_range(text, m.0 as int, m.1 as int))
            == crate::rx::text_of_range(text, g0 as int, g1 as int),
        None => true,
    }
}

/// A marker lies within the text, starts before it ends, and its own text
/// reads back to its number (for a superscript run, when its digits fit in
/// a `u32`).
pub open spec fn marker_reads_back(text: Seq<char>, m: Marker) -> bool {
    let t = crate::rx::text_of_range(text, m.start as int, m.end as int);
    &&& m.start < m.end <= byte_len(text)
    &&& t.len() > 0
    &&& superscript_value(t) <= u32::MAX ==> marker_number_s(t) == Some(m.num)
}

proof fn lemma_ascii_digits_len(t: Seq<char>)
    ensures
        ascii_digits(t).len() <= t.len(),
    decreases t.len(),
{
    if t.len() > 0 {
        lemma_ascii_digits_len(t.drop_last());
    }
}

proof fn lemma_range_bounds(text: Seq<char>, b0: int, b1: int)
    requires
        crate::rx::text_of_range(text, b0, b1).len() > 0,
    ensures
        0 <= b0 < b1 <= byte_len(text),
{
    let (a, b) = crate::rx::char_range_of(text, b0, b1).unwrap();
    crate::text::lemma_byte_at_mono(text, a, b);
    crate::text::lemma_byte_at_le(text, b, text.len() as int);
    assert(text.take(text.len() as int) =~= text);
}

proof fn lemma_bracket_markers(text: Seq<char>, ms: Seq<(usize, usize, Option<(usize, usize)>)>)
    requires
        forall|i: int| 0 <= i < ms.len() ==> bracket_match_ok(text, #[trigger] ms[i]),
    ensures
        forall|k: int|
            0 <= k < bracket_markers(text, ms).len() ==> marker_reads_back(
                text,
                #[trigger] bracket_markers(text, ms)[k],
            ),
    decreases ms.len(),
{
    if ms.len() > 0 {
        let p = ms.drop_last();
        assert forall|i: int| 0 <= i < p.len() implies bracket_match_ok(text, #[trigger] p[i]) by {
            assert(p[i] == ms[i]);
        }
        lemma_bracket_markers(text, p);
        let m = ms.last();
        assert(bracket_match_ok(text, ms[ms.len() - 1]));
        let prev = bracket_markers(text, p);
        let r = bracket_markers(text, ms);
        if r.len() > prev.len() {
            let (g0, g1) = m.2.unwrap();
            let (a, b) = crate::rx::char_range_of(text, g0 as int, g1 as int).unwrap();
            let g = text.subrange(a, b);
            let n = parse_u32_s(g).unwrap();
            let mk = Marker { start: m.0, end: m.1, num: n };
            let t = crate::rx::text_of_range(text, m.0 as int, m.1 as int);
            assert(ascii_digits(t) == g);
            lemma_ascii_digits_len(t);
            lemma_range_bounds(text, m.0 as int, m.1 as int);
            assert(marker_reads_back(text, mk));
        }
        assert forall|k: int| 0 <= k < r.len() implies marker_reads_back(text, #[trigger] r[k]) by {
            if k < prev.len() {
                assert(r[k] == prev[k]);
            }
        }
    }
}

/// Every marker found in `text`, given the bracket pattern's matches `ms`
/// as the pattern makes them: the markers come ordered by where they
/// start, each lies within the text, and each one's own text reads back to
/// the number it was given (a superscript run when its digits fit in a
/// `u32`).
pub proof fn law_scanned_markers_read_back(
    text: Seq<char>,
    ms: Seq<(usize, usize, Option<(usize, usize)>)>,
)
    requires
        byte_len(text) <= usize::MAX,
        forall|i: int| 0 <= i < ms.len() ==> bracket_match_ok(text, #[trigger] ms[i]),
    ensures
        sorted_by_start(scan_markers_from_s(text, ms)),
        forall|k: int|
            0 <= k < scan_markers_from_s(text, ms).len() ==> marker_reads_back(
                text,
                #[trigger] scan_markers_from_s(text, ms)[k],
            ),
{
    let b = bracket_markers(text, ms);
    let c = char_markers(text);
    let all = b + c;
    lemma_bracket_markers(text, ms);
    law_numeral_markers_read_back(text);
    lemma_sort_by_start(all);
    let r = scan_markers_from_s(text, ms);
    assert forall|k: int| 0 <= k < r.len() implies marker_reads_back(text, #[trigger] r[k]) by {
        let j = choose|j: int| 0 <= j < all.len() && all[j] == r[k];
        if j < b.len() {
            assert(all[j] == b[j]);
        } else {
            assert(all[j] == c[j - b.len()]);
            let m = c[j - b.len()];
            lemma_range_bounds(text, m.start as int, m.end as int);
        }
    }
}

/// The same for the markers of `text` itself, when the matches the
/// pattern matcher reported are as the bracket pattern makes them.
pub proof fn law_markers_of_text_read_back(text: Seq<char>)
    requires
        byte_len(text) <= usize::MAX,
        forall|i: int|
            0 <= i < matches_of(bracket_pattern(), text).len() ==> bracket_match_ok(
                text,
                #[trigger] matches_of(bracket_pattern(), text)[i],
            ),
    ensures
        sorted_by_start(scan_markers_s(text)),
        forall|k: int|
            0 <= k < scan_markers_s(text).len() ==> marker_reads_back(
                text,
                #[trigger] scan_markers_s(text)[k],
            ),
{
    law_scanned_markers_read_back(text, matches_of(bracket_pattern(), text));
}

// ---------------------------------------------------------------------------
// The lines of a block put back together
// ---------------------------------------------------------------------------

proof fn lemma_nonblank_no_newline(ls: Seq<Seq<char>>)
    requires
        forall|k: int| 0 <= k < ls.len() ==> crate::text::no_newline(#[trigger] ls[k]),
    ensures
        forall|k: int|
            0 <= k < nonblank_trimmed(ls).len() ==> crate::text::no_newline(
                #[trigger] nonblank_trimmed(ls)[k],
            ),
        forall|k: int|
            0 <= k < nonblank_trimmed(ls).len() ==> (#[trigger] nonblank_trimmed(ls)[k]).len() > 0
                && trim_s(nonblank_trimmed(ls)[k]) == nonblank_trimmed(ls)[k],
    decreases ls.len(),
{
    if ls.len() > 0 {
        let p = ls.drop_last();
        assert forall|k: int| 0 <= k < p.len() implies crate::text::no_newline(#[trigger] p[k]) by {
            assert(p[k] == ls[k]);
        }
        lemma_nonblank_no_newline(p);
        assert(crate::text::no_newline(ls[ls.len() - 1]));
        crate::text::lemma_trim_no_newline(ls.last());
        crate::text::lemma_trim_idempotent(ls.last());
        let r = nonblank_trimmed(ls);
        let rp = nonblank_trimmed(p);
        assert forall|k: int| 0 <= k < r.len() implies crate::text::no_newline(#[trigger] r[k]) && r[k].len()
            > 0 && trim_s(r[k]) == r[k] by {
            if k < rp.len() {
                assert(r[k] == rp[k]);
            }
        }
    }
}

proof fn lemma_groups_no_newline(ls: Seq<Seq<char>>, n: int, i: int)
    requires
        0 <= i <= ls.len(),
        forall|k: int| 0 <= k < ls.len() ==> crate::text::no_newline(#[trigger] ls[k]),
    ensures
        forall|k: int|
            0 <= k < group_state(ls, n, i).0.len() ==> crate::text::no_newline(
                #[trigger] group_state(ls, n, i).0[k],
            ),
    decreases i,
{
    if i > 0 {
        lemma_groups_no_newline(ls, n, i - 1);
        let (g, failed) = group_state(ls, n, i - 1);
        let r = group_state(ls, n, i).0;
        let line = ls[i - 1];
        assert(crate::text::no_newline(line));
        if !failed && g.len() > 0 {
            let m = g.last() + seq![' '] + line;
            assert(crate::text::no_newline(g[g.len() - 1]));
            assert forall|j: int| 0 <= j < m.len() implies m[j] != '\n' by {
                if j < g.last().len() {
                    assert(m[j] == g.last()[j]);
                } else if j > g.last().len() {
                    assert(m[j] == line[j - g.last().len() - 1]);
                }
            }
        }
        assert forall|k: int| 0 <= k < r.len() implies crate::text::no_newline(#[trigger] r[k]) by {
            if k < g.len() && !(r.len() == g.len() && k == g.len() - 1 && r[k] != g[k]) {
                if r[k] != g[k] {
                    assert(r[k] == line);
                }
            }
        }
    }
}

/// The line of entry `k` of a block put back together.
pub open spec fn reattached_line(heads: Seq<Seq<char>>, es: Seq<Seq<char>>, k: int) -> Seq<char> {
    heads[k] + seq![' '] + trim_s(es[k])
}

proof fn lemma_join_entries(heads: Seq<Seq<char>>, es: Seq<Seq<char>>, k: int)
    requires
        0 <= k <= heads.len(),
        k <= es.len(),
        forall|j: int| 0 <= j < heads.len() ==> (#[trigger] heads[j]).len() > 0,
    ensures
        join_entries(heads, es, k) == crate::text::join_pieces(
            Seq::new(k as nat, |j: int| reattached_line(heads, es, j)),
        ),
    decreases k,
{
    let ps = Seq::new(k as nat, |j: int| reattached_line(heads, es, j));
    if k == 1 {
        assert(join_entries(heads, es, 0) == Seq::<char>::empty());
        assert(join_entries(heads, es, 1) =~= reattached_line(heads, es, 0));
    } else if k > 1 {
        lemma_join_entries(heads, es, k - 1);
        let q = Seq::new((k - 1) as nat, |j: int| reattached_line(heads, es, j));
        assert(ps.drop_last() =~= q);
        let p = join_entries(heads, es, k - 1);
        assert(heads[k - 2].len() > 0);
        assert(q[q.len() - 1].len() > 0);
        assert(p.len() > 0) by {
            lemma_join_pieces_len(q);
        }
        assert(join_entries(heads, es, k) =~= p + seq!['\n'] + reattached_line(heads, es, k - 1));
    }
}

proof fn lemma_join_pieces_len(ps: Seq<Seq<char>>)
    requires
        ps.len() > 0,
        ps.last().len() > 0,
    ensures
        crate::text::join_pieces(ps).len() > 0,
{
}

/// The lines of a block put back together are, in order, each marker head
/// followed by a space and its own entry: as many lines as heads, each
/// starting with its head and a space.
pub proof fn law_reattached_lines(block: Seq<char>)
    ensures
        reattach_s(block) matches Some(out) ==> match split_prefix_s(block) {
            Some((heads, body)) => match split_body_s(heads.len() as int, body) {
                Some(es) => {
                    &&& lines_s(out).len() == heads.len()
                    &&& forall|k: int|
                        0 <= k < heads.len() ==> #[trigger] lines_s(out)[k] == reattached_line(
                            heads,
                            es,
                            k,
                        ) && starts_with_s(lines_s(out)[k], heads[k] + " "@)
                },
                None => false,
            },
            None => false,
        },
{
    law_reattached_shape(block);
    if let Some(out) = reattach_s(block) {
        let (heads, body) = split_prefix_s(block).unwrap();
        let es = split_body_s(heads.len() as int, body).unwrap();
        let ls = lines_s(block);
        crate::text::lemma_lines_no_newline(block);
        assert forall|k: int| 0 <= k < heads.len() implies crate::text::no_newline(#[trigger] heads[k])
            && heads[k].len() > 0 && !crate::text::is_ws(heads[k].last()) by {
            let i = choose|i: int|
                0 <= i < ls.len() && only_marker_s(ls[i]) && heads[k] == trim_s(ls[i]);
            assert(crate::text::no_newline(ls[i]));
            crate::text::lemma_trim_no_newline(ls[i]);
            crate::text::lemma_trim_end_no_trail(crate::text::trim_start_s(ls[i]));
        }
        let bl = nonblank_trimmed(lines_s(body));
        crate::text::lemma_lines_no_newline(body);
        lemma_nonblank_no_newline(lines_s(body));
        lemma_groups_no_newline(bl, heads.len() as int, bl.len() as int);
        let n = heads.len() as int;
        let ps = Seq::new(n as nat, |j: int| reattached_line(heads, es, j));
        assert forall|k: int| 0 <= k < ps.len() implies crate::text::no_newline(#[trigger] ps[k])
            && ps[k].len() > 0 && ps[k].last() != '\r' by {
            let h = heads[k];
            let e = trim_s(es[k]);
            assert(crate::text::no_newline(es[k]));
            crate::text::lemma_trim_no_newline(es[k]);
            crate::text::lemma_trim_end_no_trail(crate::text::trim_start_s(es[k]));
            let line = ps[k];
            assert(line == h + seq![' '] + e);
            assert forall|j: int| 0 <= j < line.len() implies line[j] != '\n' by {
                if j < h.len() {
                    assert(line[j] == h[j]);
                } else if j > h.len() {
                    assert(line[j] == e[j - h.len() - 1]);
                }
            }
            if e.len() > 0 {
                assert(line.last() == e.last());
            } else {
                assert(line.last() == ' ');
            }
        }
        lemma_join_entries(heads, es, n);
        assert(min_int(n, es.len() as int) == n);
        crate::text::lemma_lines_of_joined(ps);
        assert forall|k: int| 0 <= k < heads.len() implies #[trigger] lines_s(out)[k] == reattached_line(
            heads,
            es,
            k,
        ) && starts_with_s(lines_s(out)[k], heads[k] + " "@) by {
            reveal_strlit(" ");
            let line = reattached_line(heads, es, k);
            assert(lines_s(out)[k] == ps[k]);
            assert(line.subrange(0, heads[k].len() + 1int) =~= heads[k] + " "@);
        }
    }
}

} // verus!
