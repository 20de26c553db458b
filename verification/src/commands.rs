//! The decisions behind the application's commands: generating a citation
//! string, saving a correction written by hand, refreshing the library.
use vstd::prelude::*;

use crate::citation::{marker_number, marker_number_s, markers, markers_s};
use crate::extraction::{Extracted, ExtractedModel};
use crate::library::{Paper, PaperModel, papers_view};
use crate::source::{strip_title_suffix, strip_title_suffix_s};
use crate::store::{
    copy_string, ov, BibChunk, Citation, CitationKind,
    Note, NoteModel, CURRENT_PAPER_CHUNK, CURRENT_PAPER_REF,
};
use crate::styles::{detect_s, format_citation, format_citation_s, DocType};
use crate::text::{append_str, chars_of, eq_chars, string_of, trim, trim_s};

verus! {

/// The marker number a correction is filed under: `0` for the paper being
/// read itself (no marker); the marker's number otherwise. A marker whose
/// number cannot be read is refused rather than filed as the paper being
/// read.
pub open spec fn ref_num_s(marker: Option<Seq<char>>) -> Result<i64, Seq<char>> {
    match marker {
        None => Ok(0),
        Some(m) => match marker_number_s(m) {
            Some(n) => Ok(n as i64),
            None => Err("认不出标记「"@ + m + "」对应第几条"@),
        },
    }
}

pub fn ref_num_of(marker: Option<&str>) -> (r: Result<i64, String>)
    ensures
        match r {
            Ok(n) => ref_num_s(crate::extraction::opt_str_view(marker)) == Ok::<i64, Seq<char>>(n),
            Err(e) => ref_num_s(crate::extraction::opt_str_view(marker)) == Err::<i64, Seq<char>>(e@),
        },
{
    let m = match marker {
        None => {
            return Ok(CURRENT_PAPER_REF);
        },
        Some(m) => m,
    };
    match marker_number(m) {
        Some(n) => Ok(n as i64),
        None => {
            let mut out = chars_of("认不出标记「");
            append_str(&mut out, m);
            append_str(&mut out, "」对应第几条");
            Err(string_of(&out))
        },
    }
}

/// The bibliography a correction is filed under: `0` for the paper being
/// read; the given chunk (or `0`) for a marker.
pub open spec fn override_chunk_s(marker: Option<Seq<char>>, chunk_id: Option<i64>) -> i64 {
    match marker {
        None => 0,
        Some(_) => match chunk_id {
            Some(c) => c,
            None => 0,
        },
    }
}

pub fn override_chunk(marker: Option<&str>, chunk_id: Option<i64>) -> (r: i64)
    ensures
        r == override_chunk_s(crate::extraction::opt_str_view(marker), chunk_id),
{
    match marker {
        None => CURRENT_PAPER_CHUNK,
        Some(_) => match chunk_id {
            Some(c) => c,
            None => CURRENT_PAPER_CHUNK,
        },
    }
}

/// Where a correction goes: its bibliography chunk and marker number.
#[derive(Debug)]
pub struct OverrideTarget {
    pub bib_chunk_id: i64,
    pub ref_num: i64,
}

/// The checks before a correction is saved that need nothing stored: the
/// marker must be readable and the title not blank.
pub open spec fn override_target_s(
    chunk_id: Option<i64>,
    marker: Option<Seq<char>>,
    title: Seq<char>,
) -> Result<(i64, i64), Seq<char>> {
    match ref_num_s(marker) {
        Err(e) => Err(e),
        Ok(n) => if trim_s(title).len() == 0 {
            Err("标题不能为空"@)
        } else {
            Ok((override_chunk_s(marker, chunk_id), n))
        },
    }
}

pub fn override_target(chunk_id: Option<i64>, marker: Option<&str>, citation: &Citation) -> (r:
    Result<OverrideTarget, String>)
    ensures
        match r {
            Ok(t) => override_target_s(
                chunk_id,
                crate::extraction::opt_str_view(marker),
                citation.title@,
            ) == Ok::<(i64, i64), Seq<char>>((t.bib_chunk_id, t.ref_num)),
            Err(e) => override_target_s(
                chunk_id,
                crate::extraction::opt_str_view(marker),
                citation.title@,
            ) == Err::<(i64, i64), Seq<char>>(e@),
        },
{
    let n = match ref_num_of(marker) {
        Ok(n) => n,
        Err(e) => {
            return Err(e);
        },
    };
    let bib_chunk_id = override_chunk(marker, chunk_id);
    if trim(&chars_of(citation.title.as_str())).len() == 0 {
        return Err(string_of(&chars_of("标题不能为空")));
    }
    Ok(OverrideTarget { bib_chunk_id, ref_num: n })
}

/// A correction filed under a bibliography must name one of the paper's
/// own: `chunk` is the stored chunk with that id, if any.
pub open spec fn chunk_owner_s(paper_key: Seq<char>, chunk: Option<BibChunk>) -> Result<(), Seq<char>> {
    match chunk {
        Some(c) => if c.paper_key@ == paper_key {
            Ok(())
        } else {
            Err("文献表不存在"@)
        },
        None => Err("文献表不存在"@),
    }
}

pub fn check_chunk_owner(paper_key: &str, chunk: &Option<BibChunk>) -> (r: Result<(), String>)
    ensures
        match r {
            Ok(()) => chunk_owner_s(paper_key@, *chunk) is Ok,
            Err(e) => chunk_owner_s(paper_key@, *chunk) == Err::<(), Seq<char>>(e@),
        },
{
    match chunk {
        Some(c) => if eq_chars(&chars_of(c.paper_key.as_str()), &chars_of(paper_key)) {
            Ok(())
        } else {
            Err(string_of(&chars_of("文献表不存在")))
        },
        None => Err(string_of(&chars_of("文献表不存在"))),
    }
}

/// The text the document type of a cached citation is judged on: for a
/// cited paper the entry its first marker points to in the excerpt's own
/// bibliography (`bound`, that bibliography's text); otherwise the cleaned
/// window title.
pub open spec fn cached_hint_s(note: NoteModel, bound: Option<Seq<char>>) -> Option<Seq<char>> {
    if note.citation_kind == CitationKind::CitedPaper {
        match bound {
            Some(b) => if markers_s(note.content).len() > 0 {
                crate::citation::bibliography_entry_s(b, markers_s(note.content)[0])
            } else {
                None
            },
            None => None,
        }
    } else {
        match note.source_title {
            Some(t) => Some(strip_title_suffix_s(t)),
            None => None,
        }
    }
}

pub fn doc_type_hint_from_cache(note: &Note, bound: Option<&str>) -> (r: Option<String>)
    ensures
        ov(r) == cached_hint_s(note@, crate::extraction::opt_str_view(bound)),
{
    if note.citation_kind == CitationKind::CitedPaper {
        match bound {
            Some(b) => {
                let nums = markers(note.content.as_str());
                if nums.len() > 0 {
                    crate::citation::extract_bibliography_entry(b, nums[0])
                } else {
                    None
                }
            },
            None => None,
        }
    } else {
        match &note.source_title {
            Some(t) => Some(strip_title_suffix(t.as_str())),
            None => None,
        }
    }
}

/// The extraction a cached citation stands for.
pub fn cached_extracted(note: &Note, citation: &Citation, hint: Option<String>) -> (r: Extracted)
    ensures
        r@ == (ExtractedModel {
            citation: Some(citation@),
            kind: note.citation_kind,
            reason: None,
            doc_type_hint: ov(hint),
        }),
{
    Extracted {
        citation: Some(citation.duplicate()),
        kind: note.citation_kind,
        reason: None,
        doc_type_hint: hint,
    }
}

/// The citation string of an excerpt from what was extracted: refused with
/// the reason when there is no citation; numbered by the excerpt's first
/// marker when it cites a paper of the bibliography; the document type is
/// judged on the text the citation came from (the excerpt when unknown).
pub open spec fn citation_text_s(x: ExtractedModel, content: Seq<char>, format: Seq<char>) -> Result<
    Seq<char>,
    Seq<char>,
> {
    match x.citation {
        None => Err(
            match x.reason {
                Some(r) => "该条笔记未生成引用："@ + r,
                None => "该条笔记未生成引用"@,
            },
        ),
        Some(c) => {
            let index = if x.kind == CitationKind::CitedPaper && markers_s(content).len() > 0 {
                Some(markers_s(content)[0])
            } else {
                None
            };
            let source = match x.doc_type_hint {
                Some(h) => h,
                None => content,
            };
            format_citation_s(c, format, detect_s(source), index)
        },
    }
}

pub fn citation_text(x: &Extracted, content: &str, format: &str) -> (r: Result<String, String>)
    ensures
        crate::styles::result_view(r) == citation_text_s(x@, content@, format@),
{
    let c = match &x.citation {
        None => {
            return match &x.reason {
                Some(r) => {
                    let mut out = chars_of("该条笔记未生成引用：");
                    append_str(&mut out, r.as_str());
                    Err(string_of(&out))
                },
                None => Err(string_of(&chars_of("该条笔记未生成引用"))),
            };
        },
        Some(c) => c,
    };
    let index = if x.kind == CitationKind::CitedPaper {
        let nums = markers(content);
        if nums.len() > 0 {
            Some(nums[0])
        } else {
            None
        }
    } else {
        None
    };
    let doc_type = match &x.doc_type_hint {
        Some(h) => DocType::detect(h.as_str()),
        None => DocType::detect(content),
    };
    format_citation(c, format, doc_type, index)
}

/// A paper whose paper being read is still unknown, with what to recognise
/// it from: its cleaned window title and its first excerpt.
#[derive(Debug)]
pub struct BackfillTarget {
    pub key: String,
    pub title: String,
    pub sample: String,
}

/// The papers to recognise the paper being read for: none known yet, a
/// window title, and at least one excerpt.
pub open spec fn backfill_s(ps: Seq<PaperModel>) -> Seq<(Seq<char>, Seq<char>, Seq<char>)>
    decreases ps.len(),
{
    if ps.len() == 0 {
        seq![]
    } else {
        let rest = backfill_s(ps.drop_last());
        let p = ps.last();
        match p.source_title {
            Some(t) => if p.found_in is None && p.excerpts.len() > 0 {
                rest.push((p.key, strip_title_suffix_s(t), p.excerpts[0].content))
            } else {
                rest
            },
            None => rest,
        }
    }
}

pub fn backfill_targets(papers: &Vec<Paper>) -> (r: Vec<BackfillTarget>)
    ensures
        r@.map_values(|t: BackfillTarget| (t.key@, t.title@, t.sample@)) == backfill_s(
            papers_view(papers@),
        ),
{
    let ghost pv = papers_view(papers@);
    let mut out: Vec<BackfillTarget> = Vec::new();
    let mut i: usize = 0;
    proof {
        assert(pv.take(0) =~= Seq::<PaperModel>::empty());
        assert(out@.map_values(|t: BackfillTarget| (t.key@, t.title@, t.sample@)) =~= Seq::<
            (Seq<char>, Seq<char>, Seq<char>),
        >::empty());
    }
    while i < papers.len()
        invariant
            0 <= i <= papers.len(),
            pv == papers_view(papers@),
            pv.len() == papers.len(),
            out@.map_values(|t: BackfillTarget| (t.key@, t.title@, t.sample@)) == backfill_s(
                pv.take(i as int),
            ),
        decreases papers.len() - i,
    {
        let p = &papers[i];
        proof {
            assert(pv.take(i + 1).drop_last() =~= pv.take(i as int));
            assert(pv.take(i + 1).last() == p@);
        }
        match &p.source_title {
            Some(t) => {
                if p.found_in.is_none() && p.excerpts.len() > 0 {
                    let ghost o0 = out@;
                    let target = BackfillTarget {
                        key: copy_string(&p.key),
                        title: strip_title_suffix(t.as_str()),
                        sample: copy_string(&p.excerpts[0].content),
                    };
                    out.push(target);
                    proof {
                        assert(p@.excerpts[0] == p.excerpts@[0]@);
                        assert(out@.map_values(|t: BackfillTarget| (t.key@, t.title@, t.sample@))
                            =~= o0.map_values(|t: BackfillTarget| (t.key@, t.title@, t.sample@)).push(
                            (p@.key, strip_title_suffix_s(t@), p@.excerpts[0].content),
                        ));
                    }
                }
            },
            None => {},
        }
        i = i + 1;
    }
    proof {
        assert(pv.take(papers.len() as int) =~= pv);
    }
    out
}

} // verus!
