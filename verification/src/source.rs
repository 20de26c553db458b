//! Where a copied passage comes from: the window title, its kind, and the
//! title cleaned of application suffixes and of decorations that change
//! from moment to moment.
use vstd::prelude::*;

use crate::rx::{char_range_of, matches_in, matches_of, char_range};
use crate::text::{
    byte_len, chars_of, contains_s, contains_str, ends_with_s, is_ascii_digit,
    is_digit, is_whitespace, is_ws, lemma_take_full, lemma_take_step, lowercase_chars, lowercase_of, to_lowercase, rfind, rfind_s, slice, str_byte_len, string_of,
    trim, trim_s, trim_start, trim_start_s, trim_str, eq_chars, find, find_s,
};

verus! {

/// Handle of the foreground window as this library can tell it: none, so
/// 0. Asking the operating system is left to the application, which does
/// so on Windows.
pub fn foreground_hwnd() -> (r: isize)
    ensures
        r == 0,
{
    0
}

/// Title of a window as this library can tell it: none. The application
/// reads real titles on Windows and cleans them with `normalize_title`.
pub fn window_title_of(_hwnd: isize) -> (r: Option<String>)
    ensures
        r is None,
{
    None
}

/// Process id of a window as this library can tell it: none, so 0.
pub fn window_pid(_hwnd: isize) -> (r: u32)
    ensures
        r == 0,
{
    0
}

/// Title of the foreground window as this library can tell it: none.
pub fn foreground_window_title() -> (r: Option<String>)
    ensures
        r is None,
{
    window_title_of(foreground_hwnd())
}

/// A blank title counts as no title.
pub fn normalize_title(raw: &str) -> (r: Option<String>)
    ensures
        r matches Some(t) ==> t@ == trim_s(raw@) && t@.len() > 0,
        r is None ==> trim_s(raw@).len() == 0,
{
    let t = trim_str(raw);
    if t.len() == 0 {
        None
    } else {
        Some(string_of(&t))
    }
}

// ---------------------------------------------------------------------------
// Kind of source
// ---------------------------------------------------------------------------

pub open spec fn literature_hint(t: Seq<char>) -> bool {
    ||| contains_s(t, "学报"@)
    ||| contains_s(t, "期刊"@)
    ||| contains_s(t, "杂志"@)
    ||| contains_s(t, "会议"@)
    ||| contains_s(t, "论文集"@)
    ||| contains_s(t, "学位论文"@)
    ||| contains_s(t, "硕士学位论文"@)
    ||| contains_s(t, "博士学位论文"@)
    ||| contains_s(t, "研究"@)
    ||| contains_s(t, "综述"@)
    ||| contains_s(t, "学报（"@)
    ||| contains_s(t, "vol."@)
    ||| contains_s(t, "no."@)
    ||| contains_s(t, "arxiv"@)
    ||| contains_s(t, "doi:"@)
    ||| contains_s(t, "ieee"@)
    ||| contains_s(t, "acm "@)
    ||| contains_s(t, "springer"@)
    ||| contains_s(t, "elsevier"@)
    ||| contains_s(t, "journal of"@)
    ||| contains_s(t, "transactions on"@)
    ||| contains_s(t, "proceedings of"@)
    ||| contains_s(t, "conference on"@)
    ||| contains_s(t, "et al"@)
    ||| contains_s(t, "pp."@)
    ||| contains_s(t, "issn"@)
}

pub open spec fn webpage_hint(t: Seq<char>) -> bool {
    ||| contains_s(t, "google chrome"@)
    ||| contains_s(t, "microsoft edge"@)
    ||| contains_s(t, "edge"@)
    ||| contains_s(t, "firefox"@)
    ||| contains_s(t, "safari"@)
    ||| contains_s(t, "opera"@)
    ||| contains_s(t, "brave"@)
    ||| contains_s(t, "浏览"@)
    ||| contains_s(t, "网页"@)
    ||| contains_s(t, "知乎"@)
    ||| contains_s(t, "博客"@)
    ||| contains_s(t, "blog"@)
    ||| contains_s(t, "csdn"@)
    ||| contains_s(t, "掘金"@)
    ||| contains_s(t, "简书"@)
    ||| contains_s(t, "微博"@)
    ||| contains_s(t, "贴吧"@)
    ||| contains_s(t, "github"@)
    ||| contains_s(t, "stack overflow"@)
    ||| contains_s(t, "百度"@)
    ||| contains_s(t, "bing"@)
    ||| contains_s(t, "维基"@)
    ||| contains_s(t, "wikipedia"@)
    ||| contains_s(t, "medium"@)
}

/// `"webpage"` when the lower-cased title has a browser or site word,
/// else `"literature"` when it has a journal / paper word, else `"unknown"`
/// (also without a title).
pub open spec fn classify_s(title: Option<Seq<char>>) -> Seq<char> {
    match title {
        None => "unknown"@,
        Some(t) => kind_of_lowered(lowercase_of(t)),
    }
}

/// Kind of source from an already lower-cased title: `"webpage"` on a
/// browser or site word, else `"literature"` on a journal / paper word,
/// else `"unknown"`.
pub open spec fn kind_of_lowered(l: Seq<char>) -> Seq<char> {
    if webpage_hint(l) {
        "webpage"@
    } else if literature_hint(l) {
        "literature"@
    } else {
        "unknown"@
    }
}

fn any_hint(t: &Vec<char>, hints: &Vec<&str>) -> (r: bool)
    ensures
        r == exists|i: int| 0 <= i < hints.len() && contains_s(t@, #[trigger] hints@[i]@),
{
    let mut i: usize = 0;
    while i < hints.len()
        invariant
            0 <= i <= hints.len(),
            forall|j: int| 0 <= j < i ==> !contains_s(t@, #[trigger] hints@[j]@),
        decreases hints.len() - i,
    {
        if contains_str(t, hints[i]) {
            return true;
        }
        i = i + 1;
    }
    false
}

/// Kind of source from the window title (a local keyword heuristic).
pub fn classify(title: Option<&str>) -> (r: &'static str)
    ensures
        r@ == classify_s(match title {
            Some(t) => Some(t@),
            None => None,
        }),
{
    match title {
        Some(t) => {
            let l = to_lowercase(t);
            classify_lowered(l.as_str())
        },
        None => "unknown",
    }
}

/// Kind of source from a title that was already lower-cased.
pub fn classify_lowered(lowered: &str) -> (r: &'static str)
    ensures
        r@ == kind_of_lowered(lowered@),
{
    let l = chars_of(lowered);
    let lit: Vec<&str> = vec![
        "学报",
        "期刊",
        "杂志",
        "会议",
        "论文集",
        "学位论文",
        "硕士学位论文",
        "博士学位论文",
        "研究",
        "综述",
        "学报（",
        "vol.",
        "no.",
        "arxiv",
        "doi:",
        "ieee",
        "acm ",
        "springer",
        "elsevier",
        "journal of",
        "transactions on",
        "proceedings of",
        "conference on",
        "et al",
        "pp.",
        "issn",
    ];
    let web: Vec<&str> = vec![
        "google chrome",
        "microsoft edge",
        "edge",
        "firefox",
        "safari",
        "opera",
        "brave",
        "浏览",
        "网页",
        "知乎",
        "博客",
        "blog",
        "csdn",
        "掘金",
        "简书",
        "微博",
        "贴吧",
        "github",
        "stack overflow",
        "百度",
        "bing",
        "维基",
        "wikipedia",
        "medium",
    ];
    let is_lit = any_hint(&l, &lit);
    let is_web = any_hint(&l, &web);
    proof {
        if is_web {
            let i = choose|i: int| 0 <= i < web@.len() && contains_s(l@, #[trigger] web@[i]@);
            assert(webpage_hint(l@)) by {
                assert(contains_s(l@, web@[i]@));
            }
        } else {
            assert(!contains_s(l@, web@[0]@));
            assert(!contains_s(l@, web@[1]@));
            assert(!contains_s(l@, web@[2]@));
            assert(!contains_s(l@, web@[3]@));
            assert(!contains_s(l@, web@[4]@));
            assert(!contains_s(l@, web@[5]@));
            assert(!contains_s(l@, web@[6]@));
            assert(!contains_s(l@, web@[7]@));
            assert(!contains_s(l@, web@[8]@));
            assert(!contains_s(l@, web@[9]@));
            assert(!contains_s(l@, web@[10]@));
            assert(!contains_s(l@, web@[11]@));
            assert(!contains_s(l@, web@[12]@));
            assert(!contains_s(l@, web@[13]@));
            assert(!contains_s(l@, web@[14]@));
            assert(!contains_s(l@, web@[15]@));
            assert(!contains_s(l@, web@[16]@));
            assert(!contains_s(l@, web@[17]@));
            assert(!contains_s(l@, web@[18]@));
            assert(!contains_s(l@, web@[19]@));
            assert(!contains_s(l@, web@[20]@));
            assert(!contains_s(l@, web@[21]@));
            assert(!contains_s(l@, web@[22]@));
            assert(!contains_s(l@, web@[23]@));
        }
        if is_lit {
            let i = choose|i: int| 0 <= i < lit@.len() && contains_s(l@, #[trigger] lit@[i]@);
            assert(literature_hint(l@)) by {
                assert(contains_s(l@, lit@[i]@));
            }
        } else {
            assert(!contains_s(l@, lit@[0]@));
            assert(!contains_s(l@, lit@[1]@));
            assert(!contains_s(l@, lit@[2]@));
            assert(!contains_s(l@, lit@[3]@));
            assert(!contains_s(l@, lit@[4]@));
            assert(!contains_s(l@, lit@[5]@));
            assert(!contains_s(l@, lit@[6]@));
            assert(!contains_s(l@, lit@[7]@));
            assert(!contains_s(l@, lit@[8]@));
            assert(!contains_s(l@, lit@[9]@));
            assert(!contains_s(l@, lit@[10]@));
            assert(!contains_s(l@, lit@[11]@));
            assert(!contains_s(l@, lit@[12]@));
            assert(!contains_s(l@, lit@[13]@));
            assert(!contains_s(l@, lit@[14]@));
            assert(!contains_s(l@, lit@[15]@));
            assert(!contains_s(l@, lit@[16]@));
            assert(!contains_s(l@, lit@[17]@));
            assert(!contains_s(l@, lit@[18]@));
            assert(!contains_s(l@, lit@[19]@));
            assert(!contains_s(l@, lit@[20]@));
            assert(!contains_s(l@, lit@[21]@));
            assert(!contains_s(l@, lit@[22]@));
            assert(!contains_s(l@, lit@[23]@));
            assert(!contains_s(l@, lit@[24]@));
            assert(!contains_s(l@, lit@[25]@));
        }
    }
    if is_web {
        return "webpage";
    }
    if is_lit {
        return "literature";
    }
    "unknown"
}

// ---------------------------------------------------------------------------
// Cleaning window titles
// ---------------------------------------------------------------------------

/// Application words that mark a title tail as the reader's or browser's name.
pub open spec fn app_word(t: Seq<char>) -> bool {
    ||| contains_s(t, "chrome"@)
    ||| contains_s(t, "edge"@)
    ||| contains_s(t, "firefox"@)
    ||| contains_s(t, "safari"@)
    ||| contains_s(t, "opera"@)
    ||| contains_s(t, "brave"@)
    ||| contains_s(t, "acrobat"@)
    ||| contains_s(t, "reader"@)
    ||| contains_s(t, "pdf"@)
    ||| contains_s(t, "wps"@)
    ||| contains_s(t, "浏览器"@)
}

/// The head before the last `sep` of the title, when the tail names an
/// application and the trimmed head has at least four bytes.
pub open spec fn cut_at(title: Seq<char>, sep: Seq<char>) -> Option<Seq<char>> {
    match rfind_s(title, sep) {
        Some(idx) => if app_word(lowercase_of(title.skip(idx))) && byte_len(
            trim_s(title.take(idx)),
        ) >= 4 {
            Some(title.take(idx))
        } else {
            None
        },
        None => None,
    }
}

/// The title before its application suffix (" - Google Chrome", ...).
pub open spec fn before_app_suffix(title: Seq<char>) -> Seq<char> {
    match cut_at(title, " - "@) {
        Some(h) => h,
        None => match cut_at(title, " — "@) {
            Some(h) => h,
            None => match cut_at(title, " | "@) {
                Some(h) => h,
                None => match cut_at(title, " – "@) {
                    Some(h) => h,
                    None => title,
                },
            },
        },
    }
}

/// `trim_end_matches(suffix)`.
pub open spec fn strip_suffixes(s: Seq<char>, suffix: Seq<char>) -> Seq<char>
    decreases s.len(),
{
    if suffix.len() > 0 && ends_with_s(s, suffix) {
        strip_suffixes(s.take(s.len() - suffix.len()), suffix)
    } else {
        s
    }
}

/// The text with the first match of `pattern` removed.
pub open spec fn remove_first_match(pattern: Seq<char>, s: Seq<char>) -> Seq<char> {
    let ms = matches_of(pattern, s);
    if ms.len() > 0 {
        match char_range_of(s, ms[0].0 as int, ms[0].1 as int) {
            Some((a, b)) => s.take(a) + s.skip(b),
            None => s,
        }
    } else {
        s
    }
}

pub open spec fn tab_count_pattern() -> Seq<char> {
    "\\s*(?:和|以及|還有|还有)另外\\s*\\d+\\s*个?(?:页面|標籤頁|标签页|分页)\\s*$"@
}

pub open spec fn more_pages_pattern() -> Seq<char> {
    "(?i)\\s*and\\s+\\d+\\s+more\\s+(?:pages?|tabs?)\\s*$"@
}

pub open spec fn profile_pattern() -> Seq<char> {
    "(?i)\\s*[-—–|]\\s*(?:用户配置|使用者設定檔|个人资料|個人資料|profile|工作|个人)\\s*\\d*\\s*$"@
}

/// One pass over the three browser-tail patterns, trimming after each.
pub open spec fn tail_pass(s: Seq<char>) -> Seq<char> {
    let s1 = trim_s(remove_first_match(tab_count_pattern(), s));
    let s2 = trim_s(remove_first_match(more_pages_pattern(), s1));
    trim_s(remove_first_match(profile_pattern(), s2))
}

/// Passes until nothing changes.
pub open spec fn tails_fix(s: Seq<char>) -> Seq<char>
    decreases s.len(),
{
    let t = tail_pass(s);
    if t == s || t.len() >= s.len() {
        s
    } else {
        tails_fix(t)
    }
}

/// The title without browser tails that change as tabs open and close
/// ("和另外 2 个页面", "and 3 more pages", "- 用户配置 1"); the trimmed title
/// when nothing would be left.
pub open spec fn strip_browser_tails_s(title: Seq<char>) -> Seq<char> {
    let s = tails_fix(trim_s(title));
    if s.len() == 0 {
        trim_s(title)
    } else {
        s
    }
}

pub open spec fn is_decoration_s(c: char) -> bool {
    let code = c as u32;
    ||| c == '●' || c == '○' || c == '◐' || c == '◓' || c == '◑' || c == '◒' || c == '◆' || c
        == '◇' || c == '■' || c == '□'
    ||| c == '▪' || c == '▫' || c == '★' || c == '☆' || c == '▶' || c == '▷' || c == '▲' || c
        == '△' || c == '▼' || c == '▽'
    ||| c == '•' || c == '·' || c == '‣' || c == '∙' || c == '*' || c == '#' || c == '~' || c
        == '|' || c == '›' || c == '»'
    ||| 0x2600 <= code <= 0x27BF
    ||| 0x2B00 <= code <= 0x2BFF
    ||| 0x1F000 <= code <= 0x1FAFF
    ||| 0xFE00 <= code <= 0xFE0F
}

/// Status symbols, spinners and emoji that windows put before their titles
/// (not quotes or book-title marks).
pub fn is_decoration(c: char) -> (r: bool)
    ensures
        r == is_decoration_s(c),
{
    let code = c as u32;
    c == '●' || c == '○' || c == '◐' || c == '◓' || c == '◑' || c == '◒' || c == '◆' || c == '◇'
        || c == '■' || c == '□' || c == '▪' || c == '▫' || c == '★' || c == '☆' || c == '▶' || c
        == '▷' || c == '▲' || c == '△' || c == '▼' || c == '▽' || c == '•' || c == '·' || c == '‣'
        || c == '∙' || c == '*' || c == '#' || c == '~' || c == '|' || c == '›' || c == '»' || (
    0x2600 <= code && code <= 0x27BF) || (0x2B00 <= code && code <= 0x2BFF) || (0x1F000 <= code
        && code <= 0x1FAFF) || (0xFE00 <= code && code <= 0xFE0F)
}

/// Leading decoration characters removed.
pub open spec fn strip_decorations(s: Seq<char>) -> Seq<char>
    decreases s.len(),
{
    if s.len() > 0 && is_decoration_s(s[0]) {
        strip_decorations(s.drop_first())
    } else {
        s
    }
}

/// A count badge `(3)`, `[3]`, `（3）` or `【3】` at the start: the text after it.
pub open spec fn badge_rest(s: Seq<char>, open: char, close: char) -> Option<Seq<char>> {
    if s.len() > 0 && s[0] == open {
        let rest = s.drop_first();
        match find_s(rest, seq![close]) {
            Some(idx) => if idx > 0 && crate::text::all_digits(rest.take(idx)) {
                Some(rest.skip(idx + 1))
            } else {
                None
            },
            None => None,
        }
    } else {
        None
    }
}

pub open spec fn strip_count_badge_s(s: Seq<char>) -> Seq<char> {
    match badge_rest(s, '(', ')') {
        Some(r) => r,
        None => match badge_rest(s, '[', ']') {
            Some(r) => r,
            None => match badge_rest(s, '（', '）') {
                Some(r) => r,
                None => match badge_rest(s, '【', '】') {
                    Some(r) => r,
                    None => s,
                },
            },
        },
    }
}

/// One pass of removing a badge and decorations.
pub open spec fn prefix_pass(s: Seq<char>) -> Seq<char> {
    trim_start_s(strip_decorations(trim_start_s(strip_count_badge_s(s))))
}

pub open spec fn prefix_fix(s: Seq<char>) -> Seq<char>
    decreases s.len(),
{
    let t = prefix_pass(s);
    if t == s || t.len() >= s.len() {
        s
    } else {
        prefix_fix(t)
    }
}

/// The title without leading decorations ("(3) ", "● ", spinners, emoji);
/// the trimmed title when nothing would be left.
pub open spec fn strip_title_prefix_s(title: Seq<char>) -> Seq<char> {
    let s = prefix_fix(trim_start_s(title));
    if s.len() == 0 {
        trim_s(title)
    } else {
        s
    }
}

/// The article name in a window title: the application suffix, ".pdf",
/// browser tails and leading decorations removed; the trimmed title when
/// nothing would be left.
pub open spec fn strip_title_suffix_s(title: Seq<char>) -> Seq<char> {
    let best = before_app_suffix(title);
    let c1 = trim_s(strip_suffixes(strip_suffixes(trim_s(best), ".pdf"@), ".PDF"@));
    let c2 = strip_browser_tails_s(c1);
    let c3 = strip_title_prefix_s(c2);
    if c3.len() == 0 {
        trim_s(title)
    } else {
        c3
    }
}

/// Lower-cased and without whitespace.
pub open spec fn no_ws(s: Seq<char>) -> Seq<char>
    decreases s.len(),
{
    if s.len() == 0 {
        seq![]
    } else if is_ws(s.last()) {
        no_ws(s.drop_last())
    } else {
        no_ws(s.drop_last()).push(s.last())
    }
}

/// Key for "is this the same article": the cleaned title, lower-cased,
/// without whitespace.
pub open spec fn normalize_for_match_s(title: Seq<char>) -> Seq<char> {
    no_ws(lowercase_of(strip_title_suffix_s(title)))
}

fn cut_head(title: &Vec<char>, sep: &str) -> (r: Option<Vec<char>>)
    ensures
        r matches Some(h) ==> cut_at(title@, sep@) == Some(h@),
        r is None ==> cut_at(title@, sep@) is None,
{
    let sv = chars_of(sep);
    let idx = match rfind(title, &sv) {
        Some(i) => i,
        None => {
            return None;
        },
    };
    let head = slice(title, 0, idx);
    let tail = slice(title, idx, title.len());
    let tail_lower = lowercase_chars(&tail);
    let looks_like_app = contains_str(&tail_lower, "chrome") || contains_str(&tail_lower, "edge")
        || contains_str(&tail_lower, "firefox") || contains_str(&tail_lower, "safari")
        || contains_str(&tail_lower, "opera") || contains_str(&tail_lower, "brave")
        || contains_str(&tail_lower, "acrobat") || contains_str(&tail_lower, "reader")
        || contains_str(&tail_lower, "pdf") || contains_str(&tail_lower, "wps") || contains_str(
        &tail_lower,
        "浏览器",
    );
    let ht = trim(&head);
    let hs = string_of(&ht);
    let hb = str_byte_len(hs.as_str());
    proof {
        assert(head@ =~= title@.take(idx as int));
        assert(tail@ =~= title@.skip(idx as int));
    }
    if looks_like_app && hb >= 4 {
        Some(head)
    } else {
        None
    }
}

fn strip_suffix_all(v: &Vec<char>, suffix: &str) -> (r: Vec<char>)
    ensures
        r@ == strip_suffixes(v@, suffix@),
{
    let sv = chars_of(suffix);
    let mut cur = slice(v, 0, v.len());
    proof {
        assert(v@.subrange(0, v@.len() as int) =~= v@);
    }
    if sv.len() == 0 {
        return cur;
    }
    while crate::text::ends_with(&cur, &sv)
        invariant
            sv@ == suffix@,
            sv.len() > 0,
            strip_suffixes(v@, suffix@) == strip_suffixes(cur@, suffix@),
        decreases cur.len(),
    {
        let n = cur.len() - sv.len();
        let next = slice(&cur, 0, n);
        proof {
            assert(next@ =~= cur@.take(cur@.len() - sv@.len()));
        }
        cur = next;
    }
    cur
}

fn remove_first(pattern: &str, s: &Vec<char>) -> (r: Vec<char>)
    ensures
        r@ == remove_first_match(pattern@, s@),
{
    let st = string_of(s);
    let ms = matches_in(pattern, st.as_str());
    if ms.len() == 0 {
        return slice(s, 0, s.len());
    }
    match char_range(s, ms[0].0, ms[0].1) {
        Some((a, b)) => {
            let head = slice(s, 0, a);
            let tail = slice(s, b, s.len());
            proof {
                assert(head@ =~= s@.take(a as int));
                assert(tail@ =~= s@.skip(b as int));
            }
            crate::text::concat(&head, &tail)
        },
        None => slice(s, 0, s.len()),
    }
}

fn tail_pass_exec(s: &Vec<char>) -> (r: Vec<char>)
    ensures
        r@ == tail_pass(s@),
{
    let a = remove_first(
        "\\s*(?:和|以及|還有|还有)另外\\s*\\d+\\s*个?(?:页面|標籤頁|标签页|分页)\\s*$",
        s,
    );
    let s1 = trim(&a);
    let b = remove_first("(?i)\\s*and\\s+\\d+\\s+more\\s+(?:pages?|tabs?)\\s*$", &s1);
    let s2 = trim(&b);
    let c = remove_first(
        "(?i)\\s*[-—–|]\\s*(?:用户配置|使用者設定檔|个人资料|個人資料|profile|工作|个人)\\s*\\d*\\s*$",
        &s2,
    );
    trim(&c)
}

fn strip_browser_tails(title: &Vec<char>) -> (r: Vec<char>)
    ensures
        r@ == strip_browser_tails_s(title@),
{
    let t0 = trim(title);
    let mut s = slice(&t0, 0, t0.len());
    proof {
        assert(t0@.subrange(0, t0@.len() as int) =~= t0@);
    }
    loop
        invariant
            tails_fix(trim_s(title@)) == tails_fix(s@),
            t0@ == trim_s(title@),
        ensures
            tails_fix(trim_s(title@)) == s@,
            t0@ == trim_s(title@),
        decreases s.len(),
    {
        let t = tail_pass_exec(&s);
        if eq_chars(&t, &s) || t.len() >= s.len() {
            proof {
                assert(tails_fix(s@) == s@);
            }
            break;
        }
        proof {
            assert(tails_fix(s@) == tails_fix(t@));
        }
        s = t;
    }
    if s.len() == 0 {
        t0
    } else {
        s
    }
}

fn digits_prefix(v: &Vec<char>, n: usize) -> (r: bool)
    requires
        n <= v.len(),
    ensures
        r == crate::text::all_digits(v@.take(n as int)),
{
    let mut k: usize = 0;
    while k < n
        invariant
            0 <= k <= n <= v.len(),
            crate::text::all_digits(v@.take(k as int)),
        decreases n - k,
    {
        if !is_ascii_digit(v[k]) {
            proof {
                assert(v@.take(n as int)[k as int] == v@[k as int]);
            }
            return false;
        }
        proof {
            assert forall|j: int| 0 <= j < k + 1 implies is_digit(#[trigger] v@.take(k + 1)[j]) by {
                if j < k {
                    assert(v@.take(k + 1)[j] == v@.take(k as int)[j]);
                }
            }
        }
        k = k + 1;
    }
    true
}

fn badge(s: &Vec<char>, open: char, close: char) -> (r: Option<Vec<char>>)
    ensures
        r matches Some(x) ==> badge_rest(s@, open, close) == Some(x@),
        r is None ==> badge_rest(s@, open, close) is None,
{
    if s.len() == 0 || s[0] != open {
        return None;
    }
    let rest = slice(s, 1, s.len());
    proof {
        assert(rest@ =~= s@.drop_first());
    }
    let mut cv: Vec<char> = Vec::new();
    cv.push(close);
    proof {
        assert(cv@ =~= seq![close]);
    }
    let idx = match find(&rest, &cv) {
        Some(i) => i,
        None => {
            return None;
        },
    };
    if idx == 0 {
        return None;
    }
    if !digits_prefix(&rest, idx) {
        return None;
    }
    let out = slice(&rest, idx + 1, rest.len());
    proof {
        assert(out@ =~= rest@.skip(idx + 1));
    }
    Some(out)
}

fn strip_count_badge(s: &Vec<char>) -> (r: Vec<char>)
    ensures
        r@ == strip_count_badge_s(s@),
{
    match badge(s, '(', ')') {
        Some(r) => r,
        None => match badge(s, '[', ']') {
            Some(r) => r,
            None => match badge(s, '（', '）') {
                Some(r) => r,
                None => match badge(s, '【', '】') {
                    Some(r) => r,
                    None => slice(s, 0, s.len()),
                },
            },
        },
    }
}

fn strip_decorations_exec(v: &Vec<char>) -> (r: Vec<char>)
    ensures
        r@ == strip_decorations(v@),
{
    let mut i: usize = 0;
    proof {
        assert(v@.skip(0) =~= v@);
    }
    while i < v.len() && is_decoration(v[i])
        invariant
            0 <= i <= v.len(),
            strip_decorations(v@) == strip_decorations(v@.skip(i as int)),
        decreases v.len() - i,
    {
        proof {
            assert(v@.skip(i as int).drop_first() =~= v@.skip(i + 1));
        }
        i = i + 1;
    }
    proof {
        assert(v@.skip(i as int) =~= v@.subrange(i as int, v.len() as int));
    }
    slice(v, i, v.len())
}

fn strip_title_prefix(title: &Vec<char>) -> (r: Vec<char>)
    ensures
        r@ == strip_title_prefix_s(title@),
{
    let mut s = trim_start(title);
    loop
        invariant
            prefix_fix(trim_start_s(title@)) == prefix_fix(s@),
        ensures
            prefix_fix(trim_start_s(title@)) == s@,
        decreases s.len(),
    {
        let a = strip_count_badge(&s);
        let b = trim_start(&a);
        let c = strip_decorations_exec(&b);
        let t = trim_start(&c);
        if eq_chars(&t, &s) || t.len() >= s.len() {
            proof {
                assert(prefix_fix(s@) == s@);
            }
            break;
        }
        proof {
            assert(prefix_fix(s@) == prefix_fix(t@));
        }
        s = t;
    }
    if s.len() == 0 {
        trim(title)
    } else {
        s
    }
}

/// The article name in a window title: everything after the last " - ",
/// " — ", " | " or " – " is dropped when it names a browser or reader and at
/// least four bytes remain before it; then ".pdf", browser tails that change
/// with open tabs and profiles, and leading decorations (unread counts,
/// status dots, spinners) go. A title that would become empty is kept,
/// trimmed.
pub fn strip_title_suffix(title: &str) -> (r: String)
    ensures
        r@ == strip_title_suffix_s(title@),
{
    let tv = chars_of(title);
    let best = match cut_head(&tv, " - ") {
        Some(h) => h,
        None => match cut_head(&tv, " — ") {
            Some(h) => h,
            None => match cut_head(&tv, " | ") {
                Some(h) => h,
                None => match cut_head(&tv, " – ") {
                    Some(h) => h,
                    None => slice(&tv, 0, tv.len()),
                },
            },
        },
    };
    proof {
        assert(tv@.subrange(0, tv@.len() as int) =~= tv@);
    }
    let b1 = trim(&best);
    let b2 = strip_suffix_all(&b1, ".pdf");
    let b3 = strip_suffix_all(&b2, ".PDF");
    let c1 = trim(&b3);
    let c2 = strip_browser_tails(&c1);
    let c3 = strip_title_prefix(&c2);
    if c3.len() == 0 {
        string_of(&trim(&tv))
    } else {
        string_of(&c3)
    }
}

/// The string with every whitespace character left out.
pub fn strip_whitespace(s: &str) -> (r: String)
    ensures
        r@ == no_ws(s@),
{
    string_of(&without_ws(&chars_of(s)))
}

fn without_ws(v: &Vec<char>) -> (r: Vec<char>)
    ensures
        r@ == no_ws(v@),
{
    let mut r: Vec<char> = Vec::new();
    let mut i: usize = 0;
    proof {
        assert(v@.take(0) =~= Seq::<char>::empty());
    }
    while i < v.len()
        invariant
            0 <= i <= v.len(),
            r@ == no_ws(v@.take(i as int)),
        decreases v.len() - i,
    {
        proof {
            lemma_take_step(v@, i as int);
        }
        if !is_whitespace(v[i]) {
            r.push(v[i]);
        }
        i = i + 1;
    }
    proof {
        lemma_take_full(v@);
    }
    r
}

/// Key for grouping captures by article: `strip_title_suffix`, lower-cased,
/// with all whitespace removed.
pub fn normalize_for_match(title: &str) -> (r: String)
    ensures
        r@ == normalize_for_match_s(title@),
{
    let s = strip_title_suffix(title);
    let l = to_lowercase(s.as_str());
    strip_whitespace(l.as_str())
}

/// A title that is not blank never cleans up to nothing.
pub proof fn law_clean_title_not_empty(title: Seq<char>)
    requires
        trim_s(title).len() > 0,
    ensures
        strip_title_suffix_s(title).len() > 0,
{
}

/// The key never holds whitespace.
pub proof fn law_key_has_no_whitespace(title: Seq<char>)
    ensures
        forall|i: int|
            0 <= i < normalize_for_match_s(title).len() ==> !is_ws(
                #[trigger] normalize_for_match_s(title)[i],
            ),
{
    lemma_no_ws(lowercase_of(strip_title_suffix_s(title)));
}

proof fn lemma_no_ws(s: Seq<char>)
    ensures
        forall|i: int| 0 <= i < no_ws(s).len() ==> !is_ws(#[trigger] no_ws(s)[i]),
    decreases s.len(),
{
    if s.len() > 0 {
        lemma_no_ws(s.drop_last());
        let p = no_ws(s.drop_last());
        if !is_ws(s.last()) {
            assert forall|i: int| 0 <= i < no_ws(s).len() implies !is_ws(#[trigger] no_ws(s)[i]) by {
                if i < p.len() {
                    assert(no_ws(s)[i] == p[i]);
                }
            }
        }
    }
}

/// The window title is cut before the last ` - `, ` — `, ` | ` or ` – `
/// (tried in that order) whose tail names a browser, reader or office
/// application, provided at least four bytes of trimmed text stand before
/// it; a title with no such separator is kept whole.
pub proof fn law_app_suffix_cut(title: Seq<char>)
    ensures
        ({
            let cuts = |sep: Seq<char>|
                rfind_s(title, sep) matches Some(i) && app_word(lowercase_of(title.skip(i)))
                    && byte_len(trim_s(title.take(i))) >= 4;
            let head = |sep: Seq<char>| title.take(rfind_s(title, sep).unwrap());
            &&& cuts(" - "@) ==> before_app_suffix(title) == head(" - "@)
            &&& !cuts(" - "@) && cuts(" — "@) ==> before_app_suffix(title) == head(" — "@)
            &&& !cuts(" - "@) && !cuts(" — "@) && cuts(" | "@) ==> before_app_suffix(title) == head(
                " | "@,
            )
            &&& !cuts(" - "@) && !cuts(" — "@) && !cuts(" | "@) && cuts(" – "@) ==> before_app_suffix(
                title,
            ) == head(" – "@)
            &&& !cuts(" - "@) && !cuts(" — "@) && !cuts(" | "@) && !cuts(" – "@) ==> before_app_suffix(
                title,
            ) == title
        }),
{
}

/// Stripping a suffix again and again leaves a prefix of the text that no
/// longer ends with it, and what was removed is copies of the suffix.
pub proof fn law_strip_suffixes(s: Seq<char>, suffix: Seq<char>)
    requires
        suffix.len() > 0,
    ensures
        !ends_with_s(strip_suffixes(s, suffix), suffix),
        strip_suffixes(s, suffix).len() <= s.len(),
        strip_suffixes(s, suffix) == s.take(strip_suffixes(s, suffix).len() as int),
        (s.len() - strip_suffixes(s, suffix).len()) % (suffix.len() as int) == 0,
    decreases s.len(),
{
    if ends_with_s(s, suffix) {
        let p = s.take(s.len() - suffix.len());
        law_strip_suffixes(p, suffix);
        let r = strip_suffixes(p, suffix);
        assert(p.take(r.len() as int) =~= s.take(r.len() as int));
        assert((s.len() - r.len()) == (p.len() - r.len()) + suffix.len());
        assert((s.len() - r.len()) % (suffix.len() as int) == 0) by (nonlinear_arith)
            requires
                (p.len() - r.len()) % (suffix.len() as int) == 0,
                s.len() - r.len() == (p.len() - r.len()) + suffix.len(),
                suffix.len() > 0,
        ;
    } else {
        assert(s.take(s.len() as int) =~= s);
        assert(0int % (suffix.len() as int) == 0) by (nonlinear_arith)
            requires
                suffix.len() > 0,
        ;
    }
}

/// A leading decoration (a spinner frame such as `◐`/`◑`, a dot, a star)
/// is dropped: two titles that differ only in which decoration they start
/// with lose their decorations alike.
pub proof fn law_leading_decoration_dropped(d1: char, d2: char, rest: Seq<char>)
    requires
        is_decoration_s(d1),
        is_decoration_s(d2),
    ensures
        prefix_fix(seq![d1] + rest) == prefix_fix(seq![d2] + rest),
{
    let a = seq![d1] + rest;
    let b = seq![d2] + rest;
    assert(a[0] == d1 && b[0] == d2);
    assert(a.drop_first() =~= rest && b.drop_first() =~= rest);
    assert(strip_count_badge_s(a) == a);
    assert(strip_count_badge_s(b) == b);
    assert(!is_ws(d1) && !is_ws(d2));
    assert(trim_start_s(a) == a);
    assert(trim_start_s(b) == b);
    assert(strip_decorations(a) == strip_decorations(rest));
    assert(strip_decorations(b) == strip_decorations(rest));
    let t = prefix_pass(a);
    assert(prefix_pass(b) == t);
    lemma_prefix_pass_shorter(rest);
    assert(t.len() < a.len());
}

proof fn lemma_decorations_shorter(s: Seq<char>)
    ensures
        strip_decorations(s).len() <= s.len(),
    decreases s.len(),
{
    if s.len() > 0 && is_decoration_s(s[0]) {
        lemma_decorations_shorter(s.drop_first());
    }
}

proof fn lemma_prefix_pass_shorter(rest: Seq<char>)
    ensures
        trim_start_s(strip_decorations(rest)).len() <= rest.len(),
{
    lemma_decorations_shorter(rest);
    crate::text::lemma_trim_start_no_lead(strip_decorations(rest));
}

} // verus!
