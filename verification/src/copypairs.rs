//! The text copied out of the library: each excerpt paired with where it
//! comes from. An excerpt with several markers is cut after each marker,
//! one pair per marker; the reference line does not repeat the marker.
use vstd::prelude::*;

use crate::citation::{marker_number, marker_number_s, scan_markers, scan_markers_s, Marker};
use crate::rx::{range_text, text_of_range};
use crate::store::{
    opt_cite_view, Citation, CitationKind, CitationModel, Note, ReferenceItem,
};
use crate::styles::{detect_s, format_citation, format_citation_s, join_with, push_joined, DocType};
use crate::text::{
    append, append_str, byte_len, chars_of, lemma_take_full, lemma_take_step, str_byte_len, string_of, trim, trim_s, vviews,
};

verus! {

/// An excerpt and where it comes from, ready to be copied.
#[derive(Debug)]
pub struct PairBlock {
    pub content: String,
    /// In the order of the markers in the text; empty without markers.
    pub references: Vec<ReferenceItem>,
    pub has_marker: bool,
    /// The paper being read; the reference line of an excerpt without
    /// markers names it.
    pub found_in: Option<Citation>,
    /// Title of the paper the excerpt was read in.
    pub display_title: String,
}

/// A marker's reference as values.
pub struct RefModel {
    pub marker: Seq<char>,
    pub kind: CitationKind,
    pub citation: Option<CitationModel>,
}

pub open spec fn ref_view(r: ReferenceItem) -> RefModel {
    RefModel { marker: r.marker@, kind: r.kind, citation: opt_cite_view(r.citation) }
}

pub open spec fn refs_view(v: Seq<ReferenceItem>) -> Seq<RefModel> {
    v.map_values(|r: ReferenceItem| ref_view(r))
}

pub struct BlockModel {
    pub content: Seq<char>,
    pub references: Seq<RefModel>,
    pub has_marker: bool,
    pub found_in: Option<CitationModel>,
    pub display_title: Seq<char>,
}

impl View for PairBlock {
    type V = BlockModel;

    open spec fn view(&self) -> BlockModel {
        BlockModel {
            content: self.content@,
            references: refs_view(self.references@),
            has_marker: self.has_marker,
            found_in: opt_cite_view(self.found_in),
            display_title: self.display_title@,
        }
    }
}

/// One piece of an excerpt and the number of the marker that ends it.
#[derive(Debug)]
pub struct CopyUnit {
    pub text: String,
    pub marker_num: Option<u32>,
}

pub open spec fn units_view(v: Seq<CopyUnit>) -> Seq<(Seq<char>, Option<u32>)> {
    v.map_values(|u: CopyUnit| (u.text@, u.marker_num))
}

/// Pieces cut so far and the byte where the next one starts: each marker
/// ending after the cursor closes the piece up to its end (kept when not
/// blank).
pub open spec fn unit_scan(s: Seq<char>, ms: Seq<Marker>) -> (Seq<(Seq<char>, Option<u32>)>, int)
    decreases ms.len(),
{
    if ms.len() == 0 {
        (seq![], 0)
    } else {
        let (units, cursor) = unit_scan(s, ms.drop_last());
        let m = ms.last();
        if m.end <= cursor {
            (units, cursor)
        } else {
            let piece = trim_s(text_of_range(s, cursor, m.end as int));
            (
                if piece.len() > 0 {
                    units.push((piece, Some(m.num)))
                } else {
                    units
                },
                m.end as int,
            )
        }
    }
}

/// The pieces of an excerpt: cut after each marker, the text after the last
/// marker joined to the last piece; the whole trimmed excerpt when there is
/// nothing to cut.
pub open spec fn split_units_s(s: Seq<char>) -> Seq<(Seq<char>, Option<u32>)> {
    let ms = scan_markers_s(s);
    if ms.len() == 0 {
        seq![(trim_s(s), None)]
    } else {
        let (units, cursor) = unit_scan(s, ms);
        let rest = trim_s(text_of_range(s, cursor, byte_len(s) as int));
        let all = if rest.len() > 0 {
            if units.len() > 0 {
                units.update(
                    units.len() - 1,
                    (units.last().0 + " "@ + rest, units.last().1),
                )
            } else {
                seq![(rest, None)]
            }
        } else {
            units
        };
        if all.len() == 0 {
            seq![(trim_s(s), None)]
        } else {
            all
        }
    }
}

/// Cuts an excerpt at its markers (see `split_units_s`).
pub fn split_units(b: &PairBlock) -> (r: Vec<CopyUnit>)
    ensures
        units_view(r@) == split_units_s(b.content@),
        r.len() >= 1,
{
    let s = b.content.as_str();
    let v = chars_of(s);
    let marks = scan_markers(s);
    if marks.len() == 0 {
        let mut r: Vec<CopyUnit> = Vec::new();
        r.push(CopyUnit { text: string_of(&trim(&v)), marker_num: None });
        proof {
            assert(units_view(r@) =~= seq![(trim_s(s@), None::<u32>)]);
        }
        return r;
    }
    let mut units: Vec<CopyUnit> = Vec::new();
    let mut cursor: usize = 0;
    let mut k: usize = 0;
    proof {
        assert(marks@.take(0) =~= Seq::<Marker>::empty());
        assert(units_view(units@) =~= Seq::<(Seq<char>, Option<u32>)>::empty());
    }
    while k < marks.len()
        invariant
            0 <= k <= marks.len(),
            v@ == s@,
            s@ == b.content@,
            marks@ == scan_markers_s(s@),
            (units_view(units@), cursor as int) == unit_scan(s@, marks@.take(k as int)),
        decreases marks.len() - k,
    {
        proof {
            lemma_take_step(marks@, k as int);
        }
        let m = marks[k];
        if m.end > cursor {
            let piece = trim(&range_text(&v, cursor, m.end));
            if piece.len() > 0 {
                let ghost u0 = units@;
                units.push(CopyUnit { text: string_of(&piece), marker_num: Some(m.num) });
                proof {
                    assert(units_view(units@) =~= units_view(u0).push((piece@, Some(m.num))));
                }
            }
            cursor = m.end;
        }
        k = k + 1;
    }
    proof {
        lemma_take_full(marks@);
    }
    let total = str_byte_len(s);
    let rest = trim(&range_text(&v, cursor, total));
    if rest.len() > 0 {
        if units.len() > 0 {
            let ghost u0 = units_view(units@);
            let last = units.pop().unwrap();
            let mut t = chars_of(last.text.as_str());
            append_str(&mut t, " ");
            append(&mut t, &rest);
            units.push(CopyUnit { text: string_of(&t), marker_num: last.marker_num });
            proof {
                assert(units_view(units@) =~= u0.update(
                    u0.len() - 1,
                    (u0.last().0 + " "@ + rest@, u0.last().1),
                ));
            }
        } else {
            units.push(CopyUnit { text: string_of(&rest), marker_num: None });
            proof {
                assert(units_view(units@) =~= seq![(rest@, None::<u32>)]);
            }
        }
    }
    if units.len() == 0 {
        units.push(CopyUnit { text: string_of(&trim(&v)), marker_num: None });
        proof {
            assert(units_view(units@) =~= seq![(trim_s(s@), None::<u32>)]);
        }
    }
    units
}

pub open spec fn venue_or_empty(v: Option<Seq<char>>) -> Seq<char> {
    match v {
        Some(x) => x,
        None => seq![],
    }
}

/// A citation as one reference string, without a sequence number; the
/// document type is judged on its title and venue. The title alone when
/// no reference string can be made.
pub open spec fn cite_text_s(c: CitationModel, format: Seq<char>) -> Seq<char> {
    match format_citation_s(c, format, detect_s(c.title + " "@ + venue_or_empty(c.venue)), None) {
        Ok(s) => s,
        Err(_) => c.title,
    }
}

pub fn cite_text(c: &Citation, format: &str) -> (r: String)
    ensures
        r@ == cite_text_s(c@, format@),
{
    let mut hint = chars_of(c.title.as_str());
    append_str(&mut hint, " ");
    match &c.venue {
        Some(v) => append_str(&mut hint, v.as_str()),
        None => {},
    }
    proof {
        assert(hint@ =~= c@.title + " "@ + venue_or_empty(c@.venue));
    }
    let hs = string_of(&hint);
    let doc_type = DocType::detect(hs.as_str());
    match format_citation(c, format, doc_type, None) {
        Ok(s) => s,
        Err(_) => c.title.clone(),
    }
}

pub open spec fn unresolved_s() -> Seq<char> {
    "参考：还没对上（请把这条摘录绑定的文献表贴进来）"@
}

/// The line for a marker that has no paper yet.
pub fn unresolved_line() -> (r: String)
    ensures
        r@ == unresolved_s(),
{
    string_of(&chars_of("参考：还没对上（请把这条摘录绑定的文献表贴进来）"))
}

/// The first reference whose marker carries number `n`.
pub open spec fn find_ref(refs: Seq<RefModel>, n: u32) -> Option<RefModel>
    decreases refs.len(),
{
    if refs.len() == 0 {
        None
    } else if marker_number_s(refs[0].marker) == Some(n) {
        Some(refs[0])
    } else {
        find_ref(refs.subrange(1, refs.len() as int), n)
    }
}

/// The reference line of one piece: without markers the paper being read;
/// with markers the paper its marker points to, marked when written by
/// hand; a note that it is not matched yet otherwise. It never falls back
/// on the paper being read for a marker.
pub open spec fn reference_line_s(b: BlockModel, marker_num: Option<u32>, format: Seq<char>) -> Seq<
    char,
> {
    if !b.has_marker {
        "参考："@ + match b.found_in {
            Some(c) => cite_text_s(c, format),
            None => "未识别当前文献"@,
        }
    } else {
        match marker_num {
            None => unresolved_s(),
            Some(n) => match find_ref(b.references, n) {
                None => unresolved_s(),
                Some(r) => match (r.kind, r.citation) {
                    (CitationKind::CitedPaper, Some(c)) => "参考："@ + cite_text_s(c, format),
                    (CitationKind::Manual, Some(c)) => "参考："@ + cite_text_s(c, format) + "（手填）"@,
                    _ => unresolved_s(),
                },
            },
        }
    }
}

fn find_ref_exec(refs: &Vec<ReferenceItem>, n: u32) -> (r: Option<usize>)
    ensures
        r matches Some(i) ==> i < refs.len() && find_ref(refs_view(refs@), n) == Some(
            ref_view(refs@[i as int]),
        ),
        r is None ==> find_ref(refs_view(refs@), n) is None,
{
    let ghost rv = refs_view(refs@);
    let mut i: usize = 0;
    proof {
        assert(rv.subrange(0, rv.len() as int) =~= rv);
    }
    while i < refs.len()
        invariant
            0 <= i <= refs.len(),
            rv == refs_view(refs@),
            rv.len() == refs.len(),
            find_ref(rv, n) == find_ref(rv.subrange(i as int, rv.len() as int), n),
        decreases refs.len() - i,
    {
        proof {
            assert(rv.subrange(i as int, rv.len() as int)[0] == rv[i as int]);
            assert(rv.subrange(i as int, rv.len() as int).subrange(1, rv.len() - i) =~= rv.subrange(
                i + 1,
                rv.len() as int,
            ));
        }
        if marker_number(refs[i].marker.as_str()) == Some(n) {
            return Some(i);
        }
        i = i + 1;
    }
    None
}

/// The reference line of one piece (see `reference_line_s`).
pub fn reference_line(b: &PairBlock, marker_num: Option<u32>, format: &str) -> (r: String)
    ensures
        r@ == reference_line_s(b@, marker_num, format@),
{
    if !b.has_marker {
        let mut out = chars_of("参考：");
        match &b.found_in {
            Some(c) => append_str(&mut out, cite_text(c, format).as_str()),
            None => append_str(&mut out, "未识别当前文献"),
        }
        return string_of(&out);
    }
    let n = match marker_num {
        Some(n) => n,
        None => {
            return unresolved_line();
        },
    };
    let i = match find_ref_exec(&b.references, n) {
        Some(i) => i,
        None => {
            return unresolved_line();
        },
    };
    let r = &b.references[i];
    match (r.kind, &r.citation) {
        (CitationKind::CitedPaper, Some(c)) => {
            let mut out = chars_of("参考：");
            append_str(&mut out, cite_text(c, format).as_str());
            string_of(&out)
        },
        (CitationKind::Manual, Some(c)) => {
            let mut out = chars_of("参考：");
            append_str(&mut out, cite_text(c, format).as_str());
            append_str(&mut out, "（手填）");
            string_of(&out)
        },
        _ => unresolved_line(),
    }
}

/// One pair: the piece, its reference line, and for the last piece of an
/// excerpt with markers the paper it was read in.
pub open spec fn pair_text_s(
    b: BlockModel,
    units: Seq<(Seq<char>, Option<u32>)>,
    i: int,
    format: Seq<char>,
) -> Seq<char> {
    "摘录："@ + units[i].0 + "\n"@ + reference_line_s(b, units[i].1, format) + if i == units.len() - 1
        && b.has_marker {
        "\n读自："@ + b.display_title
    } else {
        seq![]
    }
}

pub open spec fn pair_texts(b: BlockModel, format: Seq<char>) -> Seq<Seq<char>> {
    let units = split_units_s(b.content);
    Seq::new(units.len(), |i: int| pair_text_s(b, units, i, format))
}

/// The copied text of one excerpt: its pairs, separated by blank lines.
pub open spec fn render_block_s(b: BlockModel, format: Seq<char>) -> Seq<char> {
    join_with(pair_texts(b, format), "\n\n"@)
}

/// The copied text of one excerpt (see `render_block_s`).
pub fn render_block(b: &PairBlock, format: &str) -> (r: String)
    ensures
        r@ == render_block_s(b@, format@),
{
    let units = split_units(b);
    let ghost uv = units_view(units@);
    let ghost all = pair_texts(b@, format@);
    let last = units.len() - 1;
    let mut lines: Vec<Vec<char>> = Vec::new();
    let mut i: usize = 0;
    proof {
        assert(vviews(lines@) =~= all.take(0));
    }
    while i < units.len()
        invariant
            0 <= i <= units.len(),
            last == units.len() - 1,
            uv == units_view(units@),
            uv == split_units_s(b.content@),
            all == pair_texts(b@, format@),
            all.len() == units.len(),
            vviews(lines@) == all.take(i as int),
        decreases units.len() - i,
    {
        let mut line = chars_of("摘录：");
        append_str(&mut line, units[i].text.as_str());
        append_str(&mut line, "\n");
        append_str(&mut line, reference_line(b, units[i].marker_num, format).as_str());
        if i == last && b.has_marker {
            append_str(&mut line, "\n读自：");
            append_str(&mut line, b.display_title.as_str());
        }
        proof {
            assert(uv[i as int] == (units@[i as int].text@, units@[i as int].marker_num));
            assert(line@ =~= pair_text_s(b@, uv, i as int, format@));
            assert(all[i as int] == pair_text_s(b@, uv, i as int, format@));
        }
        let ghost l0 = lines@;
        lines.push(line);
        proof {
            assert(vviews(lines@) =~= vviews(l0).push(all[i as int]));
            assert(all.take(i + 1) =~= all.take(i as int).push(all[i as int]));
        }
        i = i + 1;
    }
    proof {
        assert(all.take(units.len() as int) =~= all);
    }
    let mut out: Vec<char> = Vec::new();
    push_joined(&mut out, &lines, "\n\n");
    proof {
        assert(out@ =~= join_with(all, "\n\n"@));
    }
    string_of(&out)
}

pub open spec fn blocks_view(v: Seq<Option<PairBlock>>) -> Seq<Option<BlockModel>> {
    v.map_values(|b: Option<PairBlock>| match b {
        Some(x) => Some(x@),
        None => None,
    })
}

pub open spec fn all_present(v: Seq<Option<BlockModel>>) -> bool {
    forall|i: int| 0 <= i < v.len() ==> (#[trigger] v[i]) is Some
}

/// The copied text of the excerpts asked for, in that order: refused when
/// none is asked for or one of them no longer exists (`None`), so that a
/// partial text is never copied.
pub open spec fn build_s(blocks: Seq<Option<BlockModel>>, format: Seq<char>) -> Result<
    Seq<char>,
    Seq<char>,
> {
    if blocks.len() == 0 {
        Err("没有可复制的摘录"@)
    } else if !all_present(blocks) {
        Err("包含已删除的摘录"@)
    } else {
        Ok(
            join_with(
                Seq::new(blocks.len(), |i: int| render_block_s(blocks[i].unwrap(), format)),
                "\n\n"@,
            ),
        )
    }
}

/// The copied text of several excerpts (see `build_s`); each entry is the
/// excerpt asked for, `None` when it no longer exists.
pub fn build(blocks: &Vec<Option<PairBlock>>, format: &str) -> (r: Result<String, String>)
    ensures
        crate::styles::result_view(r) == build_s(blocks_view(blocks@), format@),
{
    let ghost bv = blocks_view(blocks@);
    if blocks.len() == 0 {
        return Err(string_of(&chars_of("没有可复制的摘录")));
    }
    let ghost all = Seq::new(bv.len(), |i: int| render_block_s(bv[i].unwrap(), format@));
    let mut texts: Vec<Vec<char>> = Vec::new();
    let mut i: usize = 0;
    proof {
        assert(vviews(texts@) =~= all.take(0));
    }
    while i < blocks.len()
        invariant
            0 <= i <= blocks.len(),
            bv == blocks_view(blocks@),
            bv.len() == blocks.len(),
            all == Seq::new(bv.len(), |i: int| render_block_s(bv[i].unwrap(), format@)),
            forall|k: int| 0 <= k < i ==> (#[trigger] bv[k]) is Some,
            vviews(texts@) == all.take(i as int),
        decreases blocks.len() - i,
    {
        match &blocks[i] {
            Some(b) => {
                let t = render_block(b, format);
                let ghost t0 = texts@;
                texts.push(chars_of(t.as_str()));
                proof {
                    assert(bv[i as int] == Some(b@));
                    assert(vviews(texts@) =~= vviews(t0).push(all[i as int]));
                    assert(all.take(i + 1) =~= all.take(i as int).push(all[i as int]));
                }
            },
            None => {
                proof {
                    assert(bv[i as int] is None);
                }
                return Err(string_of(&chars_of("包含已删除的摘录")));
            },
        }
        i = i + 1;
    }
    proof {
        assert(all.take(blocks.len() as int) =~= all);
    }
    let mut out: Vec<char> = Vec::new();
    push_joined(&mut out, &texts, "\n\n");
    proof {
        assert(out@ =~= join_with(all, "\n\n"@));
    }
    Ok(string_of(&out))
}

/// The block of one stored excerpt: its references and the paper it was
/// read in (`未知来源` when the paper has no title).
pub fn pair_block(note: &Note, references: Vec<ReferenceItem>, found_in: Option<Citation>, display_title: Option<String>) -> (r: PairBlock)
    ensures
        r.content@ == note.content@,
        r.references@ == references@,
        r.has_marker == note.has_marker,
        opt_cite_view(r.found_in) == opt_cite_view(found_in),
        r.display_title@ == (match display_title {
            Some(t) => t@,
            None => "未知来源"@,
        }),
{
    PairBlock {
        content: crate::store::copy_string(&note.content),
        references,
        has_marker: note.has_marker,
        found_in,
        display_title: match display_title {
            Some(t) => t,
            None => string_of(&chars_of("未知来源")),
        },
    }
}

} // verus!

verus! {

/// A marker that is not matched yet never borrows the paper being read:
/// for an excerpt with markers, no reference line depends on `found_in`.
pub proof fn law_unmatched_never_borrows_found_in(
    b: BlockModel,
    other: Option<CitationModel>,
    marker_num: Option<u32>,
    format: Seq<char>,
)
    requires
        b.has_marker,
    ensures
        reference_line_s(b, marker_num, format) == reference_line_s(
            BlockModel {
                content: b.content,
                references: b.references,
                has_marker: b.has_marker,
                found_in: other,
                display_title: b.display_title,
            },
            marker_num,
            format,
        ),
        (match marker_num {
            Some(n) => match find_ref(b.references, n) {
                Some(r) => !(r.citation is Some && (r.kind == CitationKind::CitedPaper || r.kind
                    == CitationKind::Manual)),
                None => true,
            },
            None => true,
        }) ==> reference_line_s(b, marker_num, format) == unresolved_s(),
{
}

/// Only the last pair of an excerpt with markers says where it was read;
/// every other pair is the piece and its reference line alone.
pub proof fn law_read_from_only_last(
    b: BlockModel,
    units: Seq<(Seq<char>, Option<u32>)>,
    i: int,
    format: Seq<char>,
)
    requires
        0 <= i < units.len(),
        i != units.len() - 1 || !b.has_marker,
    ensures
        pair_text_s(b, units, i, format) == "摘录："@ + units[i].0 + "\n"@ + reference_line_s(
            b,
            units[i].1,
            format,
        ),
{
    assert(pair_text_s(b, units, i, format) =~= "摘录："@ + units[i].0 + "\n"@ + reference_line_s(
        b,
        units[i].1,
        format,
    ));
}

/// The furthest byte that any of the markers reaches (0 without markers).
pub open spec fn furthest_end(ms: Seq<Marker>) -> int
    decreases ms.len(),
{
    if ms.len() == 0 {
        0
    } else {
        let e = furthest_end(ms.drop_last());
        if ms.last().end as int > e {
            ms.last().end as int
        } else {
            e
        }
    }
}

proof fn lemma_unit_scan_cursor(s: Seq<char>, ms: Seq<Marker>)
    ensures
        unit_scan(s, ms).1 == furthest_end(ms),
    decreases ms.len(),
{
    if ms.len() > 0 {
        lemma_unit_scan_cursor(s, ms.drop_last());
    }
}

/// Cutting an excerpt loses none of its text at the end: without markers
/// the one piece is the whole trimmed excerpt; with markers, when the text
/// after the furthest marker is not blank, the last piece ends with it
/// (trimmed). There is always at least one piece.
pub proof fn law_pieces_keep_the_tail(s: Seq<char>)
    ensures
        split_units_s(s).len() >= 1,
        scan_markers_s(s).len() == 0 ==> split_units_s(s) == seq![(trim_s(s), None::<u32>)],
        ({
            let rest = trim_s(
                text_of_range(s, furthest_end(scan_markers_s(s)), byte_len(s) as int),
            );
            let last = split_units_s(s).last().0;
            scan_markers_s(s).len() > 0 && rest.len() > 0 ==> last.len() >= rest.len() && last.subrange(
                last.len() - rest.len(),
                last.len() as int,
            ) == rest
        }),
{
    let ms = scan_markers_s(s);
    lemma_unit_scan_cursor(s, ms);
    if ms.len() > 0 {
        let (units, cursor) = unit_scan(s, ms);
        let rest = trim_s(text_of_range(s, cursor, byte_len(s) as int));
        if rest.len() > 0 {
            let last = split_units_s(s).last().0;
            if units.len() > 0 {
                let all = units.update(units.len() - 1, (units.last().0 + " "@ + rest, units.last().1));
                assert(split_units_s(s) == all);
                assert(last == units.last().0 + " "@ + rest);
            } else {
                assert(last == rest);
            }
            assert(last.subrange(last.len() - rest.len(), last.len() as int) =~= rest);
        }
    }
}

} // verus!
