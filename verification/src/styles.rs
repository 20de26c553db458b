//! Reference strings in GB/T 7714 and APA, built from fixed templates.
use vstd::prelude::*;

use crate::store::{Citation, CitationModel, ov, sviews};
use crate::text::{
    append, append_str, chars_of, contains_s, contains_str, decimal, decimal_int, eq_chars,
    has_char, contains_char, is_ws, is_whitespace, lemma_take_full, lemma_take_step,
    push_decimal, push_decimal_i64, slice, starts_with_s, string_of, trim, trim_end, trim_end_s,
    trim_s, to_uppercase, uppercase_of,
};

verus! {

/// Kind of document, as in the GB/T 7714 type codes.
#[derive(Debug, Clone, Copy, PartialEq, Eq, Structural)]
pub enum DocType {
    Journal,
    Conference,
    Thesis,
    Book,
    Web,
}

pub open spec fn gbt_code_s(d: DocType) -> Seq<char> {
    match d {
        DocType::Journal => "J"@,
        DocType::Conference => "C"@,
        DocType::Thesis => "D"@,
        DocType::Book => "M"@,
        DocType::Web => "EB/OL"@,
    }
}

/// Type guessed from keywords of the text, compared after upper-casing it
/// (so `http` and `HTTP` both mark a web resource).
pub open spec fn from_marker_text_s(text: Seq<char>) -> DocType {
    from_upper_text_s(uppercase_of(text))
}

/// Type guessed from the upper-case keywords of a text that was already
/// upper-cased.
pub open spec fn from_upper_text_s(upper: Seq<char>) -> DocType {
    if contains_s(upper, "[D]"@) || contains_s(upper, "学位论文"@) || contains_s(
        upper,
        "DISSERTATION"@,
    ) {
        DocType::Thesis
    } else if contains_s(upper, "[C]"@) || contains_s(upper, "会议"@) || contains_s(
        upper,
        "PROCEEDINGS"@,
    ) {
        DocType::Conference
    } else if contains_s(upper, "[M]"@) || contains_s(upper, "出版社"@) || contains_s(
        upper,
        "PRESS"@,
    ) {
        DocType::Book
    } else if contains_s(upper, "[EB/OL]"@) || contains_s(upper, "HTTP"@) {
        DocType::Web
    } else {
        DocType::Journal
    }
}

/// Type of an entry: Chinese notes with book-title marks are books when a
/// publisher or edition is named and journals when "载" or an issue is;
/// otherwise by keywords.
pub open spec fn detect_s(text: Seq<char>) -> DocType {
    if has_char(text, '《') && (contains_s(text, "出版社"@) || contains_s(text, "年版"@)
        || contains_s(text, "书局"@)) {
        DocType::Book
    } else if has_char(text, '《') && (has_char(text, '载') || (contains_s(text, "第"@)
        && contains_s(text, "期"@))) {
        DocType::Journal
    } else {
        from_marker_text_s(text)
    }
}

impl DocType {
    pub fn gbt_code(self) -> (r: &'static str)
        ensures
            r@ == gbt_code_s(self),
    {
        match self {
            DocType::Journal => "J",
            DocType::Conference => "C",
            DocType::Thesis => "D",
            DocType::Book => "M",
            DocType::Web => "EB/OL",
        }
    }

    /// Type from the markers and keywords in the entry's own text, in any
    /// letter case (`[C]` `[D]` `[M]` `[EB/OL]`, 学位论文, 会议, 出版社,
    /// dissertation, proceedings, press, http); a journal otherwise.
    pub fn from_marker_text(text: &str) -> (r: DocType)
        ensures
            r == from_marker_text_s(text@),
    {
        let upper = to_uppercase(text);
        DocType::from_upper_text(upper.as_str())
    }

    /// Type from the keywords of an entry's text once it was upper-cased.
    pub fn from_upper_text(upper_text: &str) -> (r: DocType)
        ensures
            r == from_upper_text_s(upper_text@),
    {
        let upper = chars_of(upper_text);
        if contains_str(&upper, "[D]") || contains_str(&upper, "学位论文") || contains_str(
            &upper,
            "DISSERTATION",
        ) {
            DocType::Thesis
        } else if contains_str(&upper, "[C]") || contains_str(&upper, "会议") || contains_str(
            &upper,
            "PROCEEDINGS",
        ) {
            DocType::Conference
        } else if contains_str(&upper, "[M]") || contains_str(&upper, "出版社") || contains_str(
            &upper,
            "PRESS",
        ) {
            DocType::Book
        } else if contains_str(&upper, "[EB/OL]") || contains_str(&upper, "HTTP") {
            DocType::Web
        } else {
            DocType::Journal
        }
    }

    /// Type of an entry judged from its own text: a Chinese note naming a
    /// publisher (出版社, 年版, 书局) is a book, one with "载" or an issue
    /// (第…期) is a journal; otherwise `from_marker_text`.
    pub fn detect(text: &str) -> (r: DocType)
        ensures
            r == detect_s(text@),
    {
        let v = chars_of(text);
        if contains_char(&v, '《') {
            if contains_str(&v, "出版社") || contains_str(&v, "年版") || contains_str(&v, "书局") {
                return DocType::Book;
            }
            if contains_char(&v, '载') || contains_str(&v, "第") && contains_str(&v, "期") {
                return DocType::Journal;
            }
        }
        DocType::from_marker_text(text)
    }
}

// ---------------------------------------------------------------------------
// Templates
// ---------------------------------------------------------------------------

/// `trim_end_matches(c)`.
pub open spec fn strip_end_char(s: Seq<char>, c: char) -> Seq<char>
    decreases s.len(),
{
    if s.len() > 0 && s.last() == c {
        strip_end_char(s.drop_last(), c)
    } else {
        s
    }
}

/// `join(sep)`.
pub open spec fn join_with(ls: Seq<Seq<char>>, sep: Seq<char>) -> Seq<char>
    decreases ls.len(),
{
    if ls.len() == 0 {
        seq![]
    } else if ls.len() == 1 {
        ls[0]
    } else {
        join_with(ls.drop_last(), sep) + sep + ls.last()
    }
}

pub open spec fn opt_part(o: Option<Seq<char>>, before: Seq<char>, after: Seq<char>) -> Seq<char> {
    match o {
        Some(x) => before + x + after,
        None => seq![],
    }
}

pub open spec fn year_part(year: Option<i64>) -> Seq<char> {
    match year {
        Some(y) => ", "@ + decimal_int(y as int),
        None => seq![],
    }
}

pub open spec fn index_part(index: Option<u32>) -> Seq<char> {
    match index {
        Some(n) => "["@ + decimal(n as nat) + "] "@,
        None => seq![],
    }
}

pub open spec fn gbt_authors_part(authors: Seq<Seq<char>>) -> Seq<char> {
    if authors.len() > 0 {
        join_with(authors, ", "@) + ". "@
    } else {
        seq![]
    }
}

pub open spec fn gbt_title_part(title: Seq<char>, d: DocType) -> Seq<char> {
    strip_end_char(title, '.') + "["@ + gbt_code_s(d) + "]. "@
}

pub open spec fn volume_part(volume: Option<Seq<char>>) -> Seq<char> {
    match volume {
        Some(vol) => if starts_with_s(vol, "("@) {
            vol
        } else {
            ", "@ + vol
        },
        None => seq![],
    }
}

/// Venue, year, and for journals volume(issue) and pages; the year alone
/// when there is no venue.
pub open spec fn gbt_venue_part(c: CitationModel, d: DocType) -> Seq<char> {
    match c.venue {
        Some(v) => match d {
            DocType::Journal => v + year_part(c.year) + volume_part(c.volume) + opt_part(
                c.page,
                ": "@,
                seq![],
            ) + "."@,
            _ => v + year_part(c.year) + "."@,
        },
        None => match c.year {
            Some(y) => decimal_int(y as int) + "."@,
            None => seq![],
        },
    }
}

/// `[n] Authors. Title[X]. Venue, year, volume(issue): pages. DOI: x.`
pub open spec fn gbt_s(c: CitationModel, d: DocType, index: Option<u32>) -> Seq<char> {
    trim_end_s(
        index_part(index) + gbt_authors_part(c.authors) + gbt_title_part(c.title, d)
            + gbt_venue_part(c, d) + opt_part(c.doi, " DOI: "@, "."@),
    )
}

pub open spec fn ascii_upper(c: char) -> char {
    if 'a' <= c <= 'z' {
        ((c as u32) - 32) as char
    } else {
        c
    }
}

/// Words split at whitespace: finished words and the current one.
pub open spec fn words_state(s: Seq<char>) -> (Seq<Seq<char>>, Seq<char>)
    decreases s.len(),
{
    if s.len() == 0 {
        (seq![], seq![])
    } else {
        let (done, cur) = words_state(s.drop_last());
        if is_ws(s.last()) {
            if cur.len() > 0 {
                (done.push(cur), seq![])
            } else {
                (done, seq![])
            }
        } else {
            (done, cur.push(s.last()))
        }
    }
}

/// `split_whitespace`.
pub open spec fn words_s(s: Seq<char>) -> Seq<Seq<char>> {
    let (done, cur) = words_state(s);
    if cur.len() > 0 {
        done.push(cur)
    } else {
        done
    }
}

/// Initials `X.` of the given words.
pub open spec fn initials_s(ps: Seq<Seq<char>>) -> Seq<Seq<char>>
    decreases ps.len(),
{
    if ps.len() == 0 {
        seq![]
    } else if ps.last().len() > 0 {
        initials_s(ps.drop_last()).push(seq![ascii_upper(ps.last()[0]), '.'])
    } else {
        initials_s(ps.drop_last())
    }
}

pub open spec fn all_ascii(s: Seq<char>) -> bool {
    forall|i: int| 0 <= i < s.len() ==> (#[trigger] s[i] as u32) < 0x80
}

/// "San Zhang" → "Zhang, S."; names with a comma and non-ASCII names
/// (Chinese names among them) stay as they are.
pub open spec fn apa_single_s(name: Seq<char>) -> Seq<char> {
    let n = trim_s(name);
    if has_char(n, ',') || !all_ascii(n) {
        n
    } else {
        let parts = words_s(n);
        if parts.len() >= 2 {
            parts.last() + ", "@ + join_with(initials_s(parts.take(parts.len() - 1)), " "@)
        } else {
            n
        }
    }
}

pub open spec fn apa_list(authors: Seq<Seq<char>>) -> Seq<Seq<char>> {
    authors.map_values(|a: Seq<char>| apa_single_s(a))
}

/// "A", "A, & B", "A, B, & C".
pub open spec fn apa_authors_s(authors: Seq<Seq<char>>) -> Seq<char> {
    let f = apa_list(authors);
    if f.len() == 0 {
        seq![]
    } else if f.len() == 1 {
        f[0]
    } else {
        join_with(f.take(f.len() - 1), ", "@) + ", & "@ + f.last()
    }
}

pub open spec fn apa_head_part(c: CitationModel) -> Seq<char> {
    (if c.authors.len() > 0 {
        apa_authors_s(c.authors) + " "@
    } else {
        seq![]
    }) + match c.year {
        Some(y) => "("@ + decimal_int(y as int) + "). "@,
        None => "(n.d.). "@,
    }
}

pub open spec fn apa_suffix(d: DocType) -> Seq<char> {
    match d {
        DocType::Thesis => " [Doctoral dissertation]"@,
        DocType::Conference => " [Conference paper]"@,
        _ => seq![],
    }
}

pub open spec fn apa_venue_part(c: CitationModel) -> Seq<char> {
    match c.venue {
        Some(v) => v + opt_part(c.volume, ", "@, seq![]) + opt_part(c.page, ", "@, seq![]) + "."@,
        None => seq![],
    }
}

/// `Authors (year). Title. Venue, volume, pages. https://doi.org/x`
pub open spec fn apa_s(c: CitationModel, d: DocType) -> Seq<char> {
    trim_end_s(
        apa_head_part(c) + (strip_end_char(c.title, '.') + "."@ + apa_suffix(d) + " "@)
            + apa_venue_part(c) + opt_part(c.doi, " https://doi.org/"@, seq![]),
    )
}

/// The reference string, or why there is none.
pub open spec fn format_citation_s(
    c: CitationModel,
    format: Seq<char>,
    d: DocType,
    index: Option<u32>,
) -> Result<Seq<char>, Seq<char>> {
    if trim_s(c.title).len() == 0 {
        Err("该条笔记未生成引用"@)
    } else if format == "GBT7714"@ {
        Ok(gbt_s(c, d, index))
    } else if format == "APA"@ {
        Ok(apa_s(c, d))
    } else {
        Err("不支持的引用格式: "@ + format)
    }
}

pub open spec fn result_view(r: Result<String, String>) -> Result<Seq<char>, Seq<char>> {
    match r {
        Ok(s) => Ok(s@),
        Err(e) => Err(e@),
    }
}

fn strip_end_dots(v: &Vec<char>) -> (r: Vec<char>)
    ensures
        r@ == strip_end_char(v@, '.'),
{
    let mut j: usize = v.len();
    proof {
        lemma_take_full(v@);
    }
    while j > 0 && v[j - 1] == '.'
        invariant
            0 <= j <= v.len(),
            strip_end_char(v@, '.') == strip_end_char(v@.take(j as int), '.'),
        decreases j,
    {
        proof {
            assert(v@.take(j as int).drop_last() =~= v@.take(j - 1));
        }
        j = j - 1;
    }
    proof {
        assert(v@.take(j as int) =~= v@.subrange(0, j as int));
    }
    slice(v, 0, j)
}

/// Appends the strings joined by `sep`.
pub fn push_joined(out: &mut Vec<char>, ls: &Vec<Vec<char>>, sep: &str)
    ensures
        final(out)@ == old(out)@ + join_with(crate::text::vviews(ls@), sep@),
{
    let ghost o = out@;
    let ghost lv = crate::text::vviews(ls@);
    let mut i: usize = 0;
    proof {
        assert(lv.take(0) =~= Seq::<Seq<char>>::empty());
        assert(out@ =~= o + join_with(lv.take(0), sep@));
    }
    while i < ls.len()
        invariant
            0 <= i <= ls.len(),
            lv == crate::text::vviews(ls@),
            lv.len() == ls.len(),
            out@ == o + join_with(lv.take(i as int), sep@),
        decreases ls.len() - i,
    {
        proof {
            lemma_take_step(lv, i as int);
            assert(lv[i as int] == ls@[i as int]@);
        }
        if i > 0 {
            append_str(out, sep);
        }
        append(out, &ls[i]);
        proof {
            if i == 0 {
                assert(lv.take(1).len() == 1);
                assert(out@ =~= o + join_with(lv.take(1), sep@));
            } else {
                assert(out@ =~= o + join_with(lv.take(i + 1), sep@));
            }
        }
        i = i + 1;
    }
    proof {
        lemma_take_full(lv);
    }
}

pub fn string_vecs(v: &Vec<String>) -> (r: Vec<Vec<char>>)
    ensures
        crate::text::vviews(r@) == sviews(v@),
{
    let mut r: Vec<Vec<char>> = Vec::new();
    let mut i: usize = 0;
    while i < v.len()
        invariant
            0 <= i <= v.len(),
            crate::text::vviews(r@) == sviews(v@.take(i as int)),
        decreases v.len() - i,
    {
        let ghost r0 = r@;
        let c = chars_of(v[i].as_str());
        r.push(c);
        proof {
            assert(crate::text::vviews(r@) =~= crate::text::vviews(r0).push(v@[i as int]@));
            assert(sviews(v@.take(i + 1)) =~= sviews(v@.take(i as int)).push(v@[i as int]@));
        }
        i = i + 1;
    }
    proof {
        assert(v@.take(v.len() as int) =~= v@);
    }
    r
}

fn push_opt(out: &mut Vec<char>, o: &Option<String>, before: &str, after: &str)
    ensures
        final(out)@ == old(out)@ + opt_part(ov(*o), before@, after@),
{
    match o {
        Some(x) => {
            let ghost o0 = out@;
            append_str(out, before);
            append_str(out, x.as_str());
            append_str(out, after);
            proof {
                assert(out@ =~= o0 + (before@ + x@ + after@));
            }
        },
        None => {
            proof {
                assert(out@ =~= old(out)@ + Seq::<char>::empty());
            }
        },
    }
}

fn push_year_part(out: &mut Vec<char>, year: Option<i64>)
    ensures
        final(out)@ == old(out)@ + year_part(year),
{
    match year {
        Some(y) => {
            let ghost o0 = out@;
            append_str(out, ", ");
            push_decimal_i64(out, y);
            proof {
                assert(out@ =~= o0 + (", "@ + decimal_int(y as int)));
            }
        },
        None => {
            proof {
                assert(out@ =~= old(out)@ + Seq::<char>::empty());
            }
        },
    }
}

fn push_index(out: &mut Vec<char>, index: Option<u32>)
    ensures
        final(out)@ == old(out)@ + index_part(index),
{
    let ghost o0 = out@;
    match index {
        Some(n) => {
            append_str(out, "[");
            push_decimal(out, n as u64);
            append_str(out, "] ");
            proof {
                assert(out@ =~= o0 + index_part(index));
            }
        },
        None => {
            proof {
                assert(out@ =~= o0 + index_part(index));
            }
        },
    }
}

fn push_gbt_authors(out: &mut Vec<char>, authors: &Vec<String>)
    ensures
        final(out)@ == old(out)@ + gbt_authors_part(sviews(authors@)),
{
    let ghost o0 = out@;
    if authors.len() > 0 {
        let av = string_vecs(authors);
        push_joined(out, &av, ", ");
        append_str(out, ". ");
        proof {
            assert(out@ =~= o0 + gbt_authors_part(sviews(authors@)));
        }
    } else {
        proof {
            assert(out@ =~= o0 + gbt_authors_part(sviews(authors@)));
        }
    }
}

fn push_gbt_title(out: &mut Vec<char>, title: &String, d: DocType)
    ensures
        final(out)@ == old(out)@ + gbt_title_part(title@, d),
{
    let ghost o0 = out@;
    let tv = chars_of(title.as_str());
    let t = strip_end_dots(&tv);
    append(out, &t);
    append_str(out, "[");
    append_str(out, d.gbt_code());
    append_str(out, "]. ");
    proof {
        assert(out@ =~= o0 + gbt_title_part(title@, d));
    }
}

fn push_volume(out: &mut Vec<char>, volume: &Option<String>)
    ensures
        final(out)@ == old(out)@ + volume_part(ov(*volume)),
{
    let ghost o0 = out@;
    match volume {
        Some(vol) => {
            let vv = chars_of(vol.as_str());
            if crate::text::starts_with_str(&vv, "(") {
                append(out, &vv);
            } else {
                append_str(out, ", ");
                append(out, &vv);
            }
            proof {
                assert(out@ =~= o0 + volume_part(ov(*volume)));
            }
        },
        None => {
            proof {
                assert(out@ =~= o0 + volume_part(ov(*volume)));
            }
        },
    }
}

fn push_gbt_venue(out: &mut Vec<char>, c: &Citation, d: DocType)
    ensures
        final(out)@ == old(out)@ + gbt_venue_part(c@, d),
{
    let ghost o0 = out@;
    match &c.venue {
        Some(venue) => {
            append_str(out, venue.as_str());
            proof {
                assert(ov(c.venue) == Some(venue@));
            }
            match d {
                DocType::Journal => {
                    push_year_part(out, c.year);
                    push_volume(out, &c.volume);
                    push_opt(out, &c.page, ": ", "");
                    append_str(out, ".");
                    proof {
                        reveal_strlit("");
                        assert(out@ =~= o0 + (venue@ + year_part(c.year) + volume_part(
                            ov(c.volume),
                        ) + opt_part(ov(c.page), ": "@, seq![]) + "."@));
                    }
                },
                _ => {
                    push_year_part(out, c.year);
                    append_str(out, ".");
                    proof {
                        assert(out@ =~= o0 + (venue@ + year_part(c.year) + "."@));
                    }
                },
            }
        },
        None => match c.year {
            Some(y) => {
                push_decimal_i64(out, y);
                append_str(out, ".");
                proof {
                    assert(out@ =~= o0 + gbt_venue_part(c@, d));
                }
            },
            None => {
                proof {
                    assert(out@ =~= o0 + gbt_venue_part(c@, d));
                }
            },
        },
    }
}

fn format_gbt7714(c: &Citation, doc_type: DocType, index: Option<u32>) -> (r: Vec<char>)
    ensures
        r@ == gbt_s(c@, doc_type, index),
{
    let mut s: Vec<char> = Vec::new();
    push_index(&mut s, index);
    push_gbt_authors(&mut s, &c.authors);
    push_gbt_title(&mut s, &c.title, doc_type);
    push_gbt_venue(&mut s, c, doc_type);
    push_opt(&mut s, &c.doi, " DOI: ", ".");
    proof {
        assert(s@ =~= index_part(index) + gbt_authors_part(c@.authors) + gbt_title_part(
            c@.title,
            doc_type,
        ) + gbt_venue_part(c@, doc_type) + opt_part(c@.doi, " DOI: "@, "."@));
    }
    trim_end(&s)
}

fn words(v: &Vec<char>) -> (r: Vec<Vec<char>>)
    ensures
        crate::text::vviews(r@) == words_s(v@),
{
    let mut done: Vec<Vec<char>> = Vec::new();
    let mut cur: Vec<char> = Vec::new();
    let mut i: usize = 0;
    proof {
        assert(v@.take(0) =~= Seq::<char>::empty());
        assert(crate::text::vviews(done@) =~= Seq::<Seq<char>>::empty());
    }
    while i < v.len()
        invariant
            0 <= i <= v.len(),
            (crate::text::vviews(done@), cur@) == words_state(v@.take(i as int)),
        decreases v.len() - i,
    {
        proof {
            lemma_take_step(v@, i as int);
        }
        let c = v[i];
        if is_whitespace(c) {
            if cur.len() > 0 {
                let ghost d0 = done@;
                let ghost c0 = cur@;
                done.push(cur);
                proof {
                    assert(crate::text::vviews(done@) =~= crate::text::vviews(d0).push(c0));
                }
            }
            cur = Vec::new();
        } else {
            cur.push(c);
        }
        i = i + 1;
    }
    proof {
        lemma_take_full(v@);
    }
    if cur.len() > 0 {
        let ghost d0 = done@;
        let ghost c0 = cur@;
        done.push(cur);
        proof {
            assert(crate::text::vviews(done@) =~= crate::text::vviews(d0).push(c0));
        }
    }
    done
}

fn all_ascii_exec(v: &Vec<char>) -> (r: bool)
    ensures
        r == all_ascii(v@),
{
    let mut i: usize = 0;
    while i < v.len()
        invariant
            0 <= i <= v.len(),
            forall|j: int| 0 <= j < i ==> (#[trigger] v@[j] as u32) < 0x80,
        decreases v.len() - i,
    {
        if (v[i] as u32) >= 0x80 {
            return false;
        }
        i = i + 1;
    }
    true
}

fn upper_ascii(c: char) -> (r: char)
    ensures
        r == ascii_upper(c),
{
    if 'a' <= c && c <= 'z' {
        crate::text::char_of_ascii((c as u32) - 32)
    } else {
        c
    }
}

/// One author in APA style: "San Zhang" → "Zhang, S."; a name that already
/// has a comma, or has non-ASCII characters (Chinese names are not
/// romanised), is kept as it is, trimmed.
pub fn apa_single_author(name: &str) -> (r: String)
    ensures
        r@ == apa_single_s(name@),
{
    let nv = chars_of(name);
    let n = trim(&nv);
    if contains_char(&n, ',') || !all_ascii_exec(&n) {
        return string_of(&n);
    }
    let parts = words(&n);
    let ghost pv = crate::text::vviews(parts@);
    if parts.len() >= 2 {
        let k = parts.len() - 1;
        let mut inits: Vec<Vec<char>> = Vec::new();
        let mut i: usize = 0;
        proof {
            assert(pv.take(0) =~= Seq::<Seq<char>>::empty());
            assert(crate::text::vviews(inits@) =~= Seq::<Seq<char>>::empty());
        }
        while i < k
            invariant
                0 <= i <= k,
                k == parts.len() - 1,
                pv == crate::text::vviews(parts@),
                pv.len() == parts.len(),
                crate::text::vviews(inits@) == initials_s(pv.take(i as int)),
            decreases k - i,
        {
            proof {
                lemma_take_step(pv, i as int);
                assert(pv[i as int] == parts@[i as int]@);
            }
            let p = &parts[i];
            if p.len() > 0 {
                let mut one: Vec<char> = Vec::new();
                one.push(upper_ascii(p[0]));
                one.push('.');
                let ghost i0 = inits@;
                let ghost o1 = one@;
                inits.push(one);
                proof {
                    assert(o1 =~= seq![ascii_upper(pv[i as int][0]), '.']);
                    assert(crate::text::vviews(inits@) =~= crate::text::vviews(i0).push(o1));
                }
            }
            i = i + 1;
        }
        let mut out: Vec<char> = Vec::new();
        append(&mut out, &parts[k]);
        append_str(&mut out, ", ");
        push_joined(&mut out, &inits, " ");
        proof {
            assert(pv.last() == parts@[k as int]@);
            assert(out@ =~= pv.last() + ", "@ + join_with(initials_s(pv.take(pv.len() - 1)), " "@));
        }
        string_of(&out)
    } else {
        string_of(&n)
    }
}

/// Authors in APA style: "A", "A, & B", "A, B, & C".
pub fn apa_authors(authors: &Vec<String>) -> (r: Vec<char>)
    ensures
        r@ == apa_authors_s(sviews(authors@)),
{
    let ghost av = sviews(authors@);
    let mut f: Vec<Vec<char>> = Vec::new();
    let mut i: usize = 0;
    proof {
        assert(crate::text::vviews(f@) =~= apa_list(av.take(0)));
    }
    while i < authors.len()
        invariant
            0 <= i <= authors.len(),
            av == sviews(authors@),
            av.len() == authors.len(),
            crate::text::vviews(f@) == apa_list(av.take(i as int)),
        decreases authors.len() - i,
    {
        let one = apa_single_author(authors[i].as_str());
        let oc = chars_of(one.as_str());
        let ghost f0 = f@;
        f.push(oc);
        proof {
            assert(av[i as int] == authors@[i as int]@);
            assert(crate::text::vviews(f@) =~= crate::text::vviews(f0).push(oc@));
            assert(apa_list(av.take(i + 1)) =~= apa_list(av.take(i as int)).push(
                apa_single_s(av[i as int]),
            ));
        }
        i = i + 1;
    }
    proof {
        assert(av.take(authors.len() as int) =~= av);
    }
    let ghost fv = crate::text::vviews(f@);
    if f.len() == 0 {
        return Vec::new();
    }
    if f.len() == 1 {
        let r = slice(&f[0], 0, f[0].len());
        proof {
            assert(r@ =~= fv[0]);
        }
        return r;
    }
    let last = f.pop().unwrap();
    let mut out: Vec<char> = Vec::new();
    push_joined(&mut out, &f, ", ");
    append_str(&mut out, ", & ");
    append(&mut out, &last);
    proof {
        assert(crate::text::vviews(f@) =~= fv.take(fv.len() - 1));
        assert(last@ == fv.last());
    }
    out
}

fn push_apa_head(out: &mut Vec<char>, c: &Citation)
    ensures
        final(out)@ == old(out)@ + apa_head_part(c@),
{
    let ghost o0 = out@;
    if c.authors.len() > 0 {
        let a = apa_authors(&c.authors);
        append(out, &a);
        out.push(' ');
    }
    let ghost o1 = out@;
    proof {
        reveal_strlit(" ");
        assert(o1 =~= o0 + (if c@.authors.len() > 0 {
            apa_authors_s(c@.authors) + " "@
        } else {
            seq![]
        }));
    }
    match c.year {
        Some(y) => {
            append_str(out, "(");
            push_decimal_i64(out, y);
            append_str(out, "). ");
        },
        None => {
            append_str(out, "(n.d.). ");
        },
    }
    proof {
        assert(out@ =~= o0 + apa_head_part(c@));
    }
}

fn push_apa_title(out: &mut Vec<char>, title: &String, d: DocType)
    ensures
        final(out)@ == old(out)@ + (strip_end_char(title@, '.') + "."@ + apa_suffix(d) + " "@),
{
    let ghost o0 = out@;
    let tv = chars_of(title.as_str());
    let t = strip_end_dots(&tv);
    append(out, &t);
    append_str(out, ".");
    match d {
        DocType::Thesis => append_str(out, " [Doctoral dissertation]"),
        DocType::Conference => append_str(out, " [Conference paper]"),
        _ => {},
    }
    append_str(out, " ");
    proof {
        assert(out@ =~= o0 + (strip_end_char(title@, '.') + "."@ + apa_suffix(d) + " "@));
    }
}

fn push_apa_venue(out: &mut Vec<char>, c: &Citation)
    ensures
        final(out)@ == old(out)@ + apa_venue_part(c@),
{
    let ghost o0 = out@;
    match &c.venue {
        Some(venue) => {
            append_str(out, venue.as_str());
            push_opt(out, &c.volume, ", ", "");
            push_opt(out, &c.page, ", ", "");
            append_str(out, ".");
            proof {
                reveal_strlit("");
                assert(ov(c.venue) == Some(venue@));
                assert(out@ =~= o0 + (venue@ + opt_part(ov(c.volume), ", "@, seq![]) + opt_part(
                    ov(c.page),
                    ", "@,
                    seq![],
                ) + "."@));
            }
        },
        None => {
            proof {
                assert(out@ =~= o0 + apa_venue_part(c@));
            }
        },
    }
}

fn format_apa(c: &Citation, doc_type: DocType) -> (r: Vec<char>)
    ensures
        r@ == apa_s(c@, doc_type),
{
    let mut s: Vec<char> = Vec::new();
    push_apa_head(&mut s, c);
    let ghost s1 = s@;
    push_apa_title(&mut s, &c.title, doc_type);
    let ghost s2 = s@;
    push_apa_venue(&mut s, c);
    let ghost s3 = s@;
    push_opt(&mut s, &c.doi, " https://doi.org/", "");
    proof {
        reveal_strlit("");
        assert(s1 =~= apa_head_part(c@));
        assert(s2 == s1 + (strip_end_char(c@.title, '.') + "."@ + apa_suffix(doc_type) + " "@));
        assert(s3 == s2 + apa_venue_part(c@));
        assert(s@ =~= apa_head_part(c@) + (strip_end_char(c@.title, '.') + "."@ + apa_suffix(
            doc_type,
        ) + " "@) + apa_venue_part(c@) + opt_part(c@.doi, " https://doi.org/"@, seq![]));
    }
    trim_end(&s)
}

/// Reference string of a citation in `"GBT7714"` or `"APA"` (the sequence
/// number goes only into GB/T 7714). A citation with a blank title has no
/// reference string; another format name is refused. Missing fields are
/// left out, never printed as placeholders.
pub fn format_citation(citation: &Citation, format: &str, doc_type: DocType, index: Option<u32>) -> (r:
    Result<String, String>)
    ensures
        result_view(r) == format_citation_s(citation@, format@, doc_type, index),
{
    let tv = chars_of(citation.title.as_str());
    let tt = trim(&tv);
    if tt.len() == 0 {
        return Err(string_of(&chars_of("该条笔记未生成引用")));
    }
    let fv = chars_of(format);
    if eq_chars(&fv, &chars_of("GBT7714")) {
        Ok(string_of(&format_gbt7714(citation, doc_type, index)))
    } else if eq_chars(&fv, &chars_of("APA")) {
        Ok(string_of(&format_apa(citation, doc_type)))
    } else {
        let mut e = chars_of("不支持的引用格式: ");
        append(&mut e, &fv);
        Err(string_of(&e))
    }
}

} // verus!

verus! {

/// A sequence number goes into GB/T 7714 strings only: an APA string does
/// not depend on it.
pub proof fn law_apa_ignores_index(c: CitationModel, d: DocType, i: Option<u32>, j: Option<u32>)
    ensures
        format_citation_s(c, "APA"@, d, i) == format_citation_s(c, "APA"@, d, j),
{
    reveal_strlit("APA");
    reveal_strlit("GBT7714");
    assert("APA"@.len() != "GBT7714"@.len());
}

/// A citation with a blank title gives no reference string, whatever the
/// format.
pub proof fn law_blank_title_refused(c: CitationModel, format: Seq<char>, d: DocType, i: Option<u32>)
    requires
        trim_s(c.title).len() == 0,
    ensures
        format_citation_s(c, format, d, i) is Err,
{
}

proof fn lemma_join_with_front(ls: Seq<Seq<char>>, sep: Seq<char>)
    requires
        ls.len() >= 2,
    ensures
        join_with(ls, sep) == ls[0] + sep + join_with(ls.drop_first(), sep),
    decreases ls.len(),
{
    if ls.len() == 2 {
        assert(ls.drop_first().len() == 1);
        assert(ls.drop_last().len() == 1);
        assert(join_with(ls.drop_last(), sep) == ls[0]);
        assert(join_with(ls.drop_first(), sep) == ls[1]);
    } else {
        let p = ls.drop_last();
        lemma_join_with_front(p, sep);
        assert(p.drop_first() =~= ls.drop_first().drop_last());
        assert(ls.drop_first().last() == ls.last());
        assert(p[0] == ls[0]);
    }
}

/// The APA author list: one author as formatted; two as "A, & B"; with
/// three or more, the first author followed by ", " and the list of the
/// others, so that only the last author is preceded by ", & "
/// ("A, B, & C").
pub proof fn law_apa_author_list(authors: Seq<Seq<char>>)
    ensures
        authors.len() == 0 ==> apa_authors_s(authors) == Seq::<char>::empty(),
        authors.len() == 1 ==> apa_authors_s(authors) == apa_single_s(authors[0]),
        authors.len() == 2 ==> apa_authors_s(authors) == apa_single_s(authors[0]) + ", & "@
            + apa_single_s(authors[1]),
        authors.len() >= 3 ==> apa_authors_s(authors) == apa_single_s(authors[0]) + ", "@
            + apa_authors_s(authors.drop_first()),
{
    let f = apa_list(authors);
    if authors.len() == 2 {
        assert(f.take(1).len() == 1);
        assert(f.take(1)[0] == f[0]);
    }
    if authors.len() >= 3 {
        let g = apa_list(authors.drop_first());
        assert(g =~= f.drop_first());
        let h = f.take(f.len() - 1);
        lemma_join_with_front(h, ", "@);
        assert(h.drop_first() =~= g.take(g.len() - 1));
        assert(h[0] == f[0]);
        assert(g.last() == f.last());
        assert(apa_authors_s(authors) == join_with(h, ", "@) + ", & "@ + f.last());
        assert(apa_authors_s(authors.drop_first()) == join_with(g.take(g.len() - 1), ", "@) + ", & "@
            + g.last());
        assert(apa_authors_s(authors) =~= f[0] + ", "@ + apa_authors_s(authors.drop_first()));
    }
}

/// The type marks of an upper-cased entry decide its type, thesis marks
/// first: `[D]` (学位论文, DISSERTATION) a thesis; otherwise `[C]` (会议,
/// PROCEEDINGS) a conference paper; otherwise `[M]` (出版社, PRESS) a book;
/// otherwise `[EB/OL]` or HTTP a web resource; an entry with none of these
/// is a journal article.
pub proof fn law_type_marks(upper: Seq<char>)
    ensures
        contains_s(upper, "[D]"@) ==> from_upper_text_s(upper) == DocType::Thesis,
        contains_s(upper, "学位论文"@) ==> from_upper_text_s(upper) == DocType::Thesis,
        contains_s(upper, "DISSERTATION"@) ==> from_upper_text_s(upper) == DocType::Thesis,
        !contains_s(upper, "[D]"@) && !contains_s(upper, "学位论文"@) && !contains_s(
            upper,
            "DISSERTATION"@,
        ) ==> {
            &&& contains_s(upper, "[C]"@) ==> from_upper_text_s(upper) == DocType::Conference
            &&& contains_s(upper, "会议"@) ==> from_upper_text_s(upper) == DocType::Conference
            &&& contains_s(upper, "PROCEEDINGS"@) ==> from_upper_text_s(upper) == DocType::Conference
            &&& !contains_s(upper, "[C]"@) && !contains_s(upper, "会议"@) && !contains_s(
                upper,
                "PROCEEDINGS"@,
            ) ==> {
                &&& contains_s(upper, "[M]"@) ==> from_upper_text_s(upper) == DocType::Book
                &&& contains_s(upper, "出版社"@) ==> from_upper_text_s(upper) == DocType::Book
                &&& contains_s(upper, "PRESS"@) ==> from_upper_text_s(upper) == DocType::Book
                &&& !contains_s(upper, "[M]"@) && !contains_s(upper, "出版社"@) && !contains_s(
                    upper,
                    "PRESS"@,
                ) ==> {
                    &&& contains_s(upper, "[EB/OL]"@) ==> from_upper_text_s(upper) == DocType::Web
                    &&& contains_s(upper, "HTTP"@) ==> from_upper_text_s(upper) == DocType::Web
                    &&& !contains_s(upper, "[EB/OL]"@) && !contains_s(upper, "HTTP"@)
                        ==> from_upper_text_s(upper) == DocType::Journal
                }
            }
        },
{
}

proof fn lemma_title_part_marked(title: Seq<char>, d: DocType)
    ensures
        gbt_title_part(title, d)[strip_end_char(title, '.').len() as int] == '[',
        strip_end_char(title, '.').len() < gbt_title_part(title, d).len(),
{
    reveal_strlit("[");
    let t = strip_end_char(title, '.');
    assert((t + "["@ + gbt_code_s(d) + "]. "@)[t.len() as int] == '[');
}

/// A GB/T 7714 reference with a sequence number is `[n] ` followed by the
/// reference without one.
#[verifier::rlimit(50)]
#[verifier::spinoff_prover]
pub proof fn law_gbt_index_prefix(c: CitationModel, d: DocType, n: u32)
    ensures
        gbt_s(c, d, Some(n)) == "["@ + decimal(n as nat) + "] "@ + gbt_s(c, d, None),
{
    let rest = gbt_authors_part(c.authors) + gbt_title_part(c.title, d) + gbt_venue_part(c, d)
        + opt_part(c.doi, " DOI: "@, "."@);
    lemma_title_part_marked(c.title, d);
    let k: int = (gbt_authors_part(c.authors).len() + strip_end_char(c.title, '.').len()) as int;
    assert(rest[k] == '[');
    crate::text::lemma_trim_end_concat(index_part(Some(n)), rest, k);
    assert(index_part(Some(n)) + gbt_authors_part(c.authors) + gbt_title_part(c.title, d)
        + gbt_venue_part(c, d) + opt_part(c.doi, " DOI: "@, "."@) =~= index_part(Some(n)) + rest);
    assert(index_part(None) + gbt_authors_part(c.authors) + gbt_title_part(c.title, d)
        + gbt_venue_part(c, d) + opt_part(c.doi, " DOI: "@, "."@) =~= rest);
    assert(index_part(Some(n)) + rest =~= "["@ + decimal(n as nat) + "] "@ + rest);
}

/// GB/T 7714 separates authors by ", ": with two or more authors, the
/// reference is the first author, ", ", and the reference of the same
/// work by the other authors.
#[verifier::rlimit(50)]
#[verifier::spinoff_prover]
pub proof fn law_gbt_author_separator(c: CitationModel, d: DocType)
    requires
        c.authors.len() >= 2,
    ensures
        gbt_s(c, d, None) == c.authors[0] + ", "@ + gbt_s(
            CitationModel { authors: c.authors.drop_first(), ..c },
            d,
            None,
        ),
{
    let c2 = CitationModel { authors: c.authors.drop_first(), ..c };
    lemma_join_with_front(c.authors, ", "@);
    let tail = gbt_title_part(c.title, d) + gbt_venue_part(c, d) + opt_part(c.doi, " DOI: "@, "."@);
    assert(gbt_venue_part(c2, d) == gbt_venue_part(c, d));
    let r2 = gbt_authors_part(c2.authors) + tail;
    lemma_title_part_marked(c.title, d);
    let k: int = (gbt_authors_part(c2.authors).len() + strip_end_char(c.title, '.').len()) as int;
    assert(r2[k] == '[');
    crate::text::lemma_trim_end_concat(c.authors[0] + ", "@, r2, k);
    assert(index_part(None) + (gbt_authors_part(c.authors) + gbt_title_part(c.title, d))
        + gbt_venue_part(c, d) + opt_part(c.doi, " DOI: "@, "."@) =~= (c.authors[0] + ", "@) + r2);
    assert(index_part(None) + (gbt_authors_part(c2.authors) + gbt_title_part(c.title, d))
        + gbt_venue_part(c2, d) + opt_part(c2.doi, " DOI: "@, "."@) =~= r2);
}

/// An APA reference with authors is the author list, a space, and the
/// reference of the same work without authors.
#[verifier::rlimit(50)]
#[verifier::spinoff_prover]
pub proof fn law_apa_authors_lead(c: CitationModel, d: DocType)
    requires
        c.authors.len() > 0,
    ensures
        apa_s(c, d) == apa_authors_s(c.authors) + " "@ + apa_s(
            CitationModel { authors: seq![], ..c },
            d,
        ),
{
    let c2 = CitationModel { authors: seq![], ..c };
    let rest = apa_head_part(c2) + (strip_end_char(c.title, '.') + "."@ + apa_suffix(d) + " "@)
        + apa_venue_part(c) + opt_part(c.doi, " https://doi.org/"@, seq![]);
    assert(apa_venue_part(c2) == apa_venue_part(c));
    reveal_strlit("(");
    reveal_strlit("(n.d.). ");
    assert(apa_head_part(c2)[0] == '(');
    crate::text::lemma_trim_end_concat(apa_authors_s(c.authors) + " "@, rest, 0);
    assert(apa_head_part(c) =~= apa_authors_s(c.authors) + " "@ + apa_head_part(c2));
    assert(apa_head_part(c) + (strip_end_char(c.title, '.') + "."@ + apa_suffix(d) + " "@)
        + apa_venue_part(c) + opt_part(c.doi, " https://doi.org/"@, seq![]) =~= (apa_authors_s(
        c.authors,
    ) + " "@) + rest);
}

/// A Chinese note (with `《`) that names a publisher or an edition
/// (出版社, 年版, 书局) is a book; one that says 载 or gives an issue
/// (第 … 期) is a journal article; any other entry is typed by its marks.
pub proof fn law_detect_chinese_notes(text: Seq<char>)
    ensures
        has_char(text, '《') && (contains_s(text, "出版社"@) || contains_s(text, "年版"@) || contains_s(
            text,
            "书局"@,
        )) ==> detect_s(text) == DocType::Book,
        has_char(text, '《') && !(contains_s(text, "出版社"@) || contains_s(text, "年版"@)
            || contains_s(text, "书局"@)) && (has_char(text, '载') || (contains_s(text, "第"@)
            && contains_s(text, "期"@))) ==> detect_s(text) == DocType::Journal,
        !has_char(text, '《') ==> detect_s(text) == from_upper_text_s(uppercase_of(text)),
{
}

/// Volume and pages appear only in the GB/T 7714 reference of a journal
/// article: for any other type they change nothing.
pub proof fn law_gbt_volume_only_for_journals(c: CitationModel, d: DocType, i: Option<u32>)
    requires
        d != DocType::Journal,
    ensures
        gbt_s(c, d, i) == gbt_s(CitationModel { volume: None, page: None, ..c }, d, i),
{
    let c2 = CitationModel { volume: None, page: None, ..c };
    assert(gbt_venue_part(c, d) == gbt_venue_part(c2, d));
}

/// The GB/T 7714 reference of a journal article with a venue and no DOI
/// ends with the venue, the year, the volume and the pages in that order,
/// then a full stop: `Venue, 2021, 44(3): 15-25.`
pub proof fn law_gbt_journal_tail(c: CitationModel, i: Option<u32>, v: Seq<char>, y: i64, vol: Seq<char>, p: Seq<char>)
    requires
        c.venue == Some(v),
        c.year == Some(y),
        c.volume == Some(vol),
        !starts_with_s(vol, "("@),
        c.page == Some(p),
        c.doi is None,
    ensures
        ({
            let tail = v + ", "@ + decimal_int(y as int) + ", "@ + vol + ": "@ + p + "."@;
            let r = gbt_s(c, DocType::Journal, i);
            r.len() >= tail.len() && r.subrange(r.len() - tail.len(), r.len() as int) == tail
        }),
{
    reveal_strlit(".");
    let tail = v + ", "@ + decimal_int(y as int) + ", "@ + vol + ": "@ + p + "."@;
    let head = index_part(i) + gbt_authors_part(c.authors) + gbt_title_part(c.title, DocType::Journal);
    assert(gbt_venue_part(c, DocType::Journal) =~= tail);
    let whole = head + tail;
    assert(index_part(i) + gbt_authors_part(c.authors) + gbt_title_part(c.title, DocType::Journal)
        + gbt_venue_part(c, DocType::Journal) + opt_part(c.doi, " DOI: "@, "."@) =~= whole);
    assert(whole.last() == '.');
    assert(crate::text::trim_end_s(whole) == whole);
    assert(whole.subrange(whole.len() - tail.len(), whole.len() as int) =~= tail);
}

pub open spec fn no_space(w: Seq<char>) -> bool {
    forall|i: int| 0 <= i < w.len() ==> !is_ws(#[trigger] w[i])
}

proof fn lemma_words_state_append(p: Seq<char>, w: Seq<char>)
    requires
        no_space(w),
    ensures
        words_state(p + w) == (words_state(p).0, words_state(p).1 + w),
    decreases w.len(),
{
    if w.len() == 0 {
        assert(p + w =~= p);
        assert(words_state(p).1 + w =~= words_state(p).1);
    } else {
        let w0 = w.drop_last();
        assert forall|i: int| 0 <= i < w0.len() implies !is_ws(#[trigger] w0[i]) by {
            assert(w0[i] == w[i]);
        }
        lemma_words_state_append(p, w0);
        assert((p + w).drop_last() =~= p + w0);
        assert((p + w).last() == w[w.len() - 1]);
        assert((words_state(p).1 + w0).push(w.last()) =~= words_state(p).1 + w);
    }
}

/// An English name of two words, "Given Family", is written
/// "Family, G." in APA.
pub proof fn law_apa_two_word_name(given: Seq<char>, family: Seq<char>)
    requires
        given.len() > 0,
        family.len() > 0,
        no_space(given),
        no_space(family),
        all_ascii(given + " "@ + family),
        !has_char(given + " "@ + family, ','),
    ensures
        apa_single_s(given + " "@ + family) == family + ", "@ + seq![ascii_upper(given[0]), '.'],
{
    reveal_strlit(" ");
    let n = given + " "@ + family;
    assert(n[0] == given[0]);
    assert(n.last() == family.last());
    assert(crate::text::trim_start_s(n) == n);
    assert(crate::text::trim_end_s(n) == n);
    lemma_words_state_append(Seq::<char>::empty(), given);
    assert(Seq::<char>::empty() + given =~= given);
    assert(words_state(Seq::<char>::empty()) == (Seq::<Seq<char>>::empty(), Seq::<char>::empty()));
    let gs = given + " "@;
    assert(gs.drop_last() =~= given);
    assert(gs.last() == ' ');
    assert(words_state(gs) == (seq![given], Seq::<char>::empty()));
    lemma_words_state_append(gs, family);
    assert(gs + family =~= n);
    assert(Seq::<char>::empty() + family =~= family);
    let ws = words_s(n);
    assert(ws =~= seq![given, family]);
    assert(ws.take(1) =~= seq![given]);
    assert(seq![given].drop_last() =~= Seq::<Seq<char>>::empty());
    assert(seq![given].last() == given);
    assert(initials_s(Seq::<Seq<char>>::empty()) == Seq::<Seq<char>>::empty());
    assert(initials_s(seq![given]) == initials_s(seq![given].drop_last()).push(
        seq![ascii_upper(given[0]), '.'],
    ));
    assert(initials_s(seq![given]) =~= seq![seq![ascii_upper(given[0]), '.']]);
}

} // verus!
