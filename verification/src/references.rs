//! Working out what each marker of an excerpt points to. A marker with a
//! correction written by hand takes it; otherwise the entry of the
//! excerpt's own bibliography is read; a marker that cannot be matched
//! stays unmatched and never borrows the paper being read.
use vstd::prelude::*;

use crate::citation::{
    bibliography_entry_s, distinct_nums, extract_bibliography_entry, scan_markers,
    scan_markers_s, Marker,
};
use crate::copypairs::{ref_view, refs_view, RefModel};
use crate::extraction::{
    entry_citation_s, entry_prompt, entry_prompt_s, extract_citation_from_entry, replies_view,
    LlmRequest,
};
use crate::llm::{LlmError, LlmErrorModel};
use crate::rx::{range_text, text_of_range};
use crate::store::{
    copy_opt_citation, copy_string, notes_view, opt_cite_view, BibChunk, Citation, CitationKind,
    CitationModel, Note, NoteModel, ReferenceItem, CURRENT_PAPER_CHUNK,
};
use crate::text::{chars_of, eq_chars, lemma_take_full, lemma_take_step, string_of};

verus! {

/// The excerpts of paper `key`, in the given order.
pub open spec fn notes_of_paper_s(notes: Seq<NoteModel>, key: Seq<char>) -> Seq<NoteModel> {
    notes.filter(|n: NoteModel| n.paper_key == key)
}

pub fn notes_of_paper(notes: &Vec<Note>, key: &str) -> (r: Vec<Note>)
    ensures
        notes_view(r@) == notes_of_paper_s(notes_view(notes@), key@),
{
    let ghost nv = notes_view(notes@);
    let kv = chars_of(key);
    let mut out: Vec<Note> = Vec::new();
    let mut i: usize = 0;
    proof {
        reveal(Seq::filter);
        assert(nv.take(0).filter(|n: NoteModel| n.paper_key == key@) =~= Seq::<NoteModel>::empty());
        assert(notes_view(out@) =~= Seq::<NoteModel>::empty());
    }
    while i < notes.len()
        invariant
            0 <= i <= notes.len(),
            kv@ == key@,
            nv == notes_view(notes@),
            nv.len() == notes.len(),
            notes_view(out@) == nv.take(i as int).filter(|n: NoteModel| n.paper_key == key@),
        decreases notes.len() - i,
    {
        proof {
            assert(nv.take(i + 1).drop_last() =~= nv.take(i as int));
            assert(nv.take(i + 1).last() == notes@[i as int]@);
            reveal(Seq::filter);
        }
        if eq_chars(&chars_of(notes[i].paper_key.as_str()), &kv) {
            let ghost o0 = out@;
            out.push(crate::store::copy_note(&notes[i]));
            proof {
                assert(notes_view(out@) =~= notes_view(o0).push(nv[i as int]));
            }
        }
        i = i + 1;
    }
    proof {
        assert(nv.take(notes.len() as int) =~= nv);
    }
    out
}

/// A correction written by hand: the bibliography chunk, the marker number
/// (`0` for the paper being read) and the citation.
pub open spec fn overrides_view(v: Seq<((i64, i64), Citation)>) -> Seq<((i64, i64), CitationModel)> {
    v.map_values(|e: ((i64, i64), Citation)| (e.0, e.1@))
}

/// The correction for chunk `chunk` and marker `num` (the first one).
pub open spec fn override_for(ov: Seq<((i64, i64), CitationModel)>, chunk: i64, num: i64) -> Option<
    CitationModel,
>
    decreases ov.len(),
{
    if ov.len() == 0 {
        None
    } else if ov[0].0 == (chunk, num) {
        Some(ov[0].1)
    } else {
        override_for(ov.subrange(1, ov.len() as int), chunk, num)
    }
}

/// The text of the excerpt's own bibliography (the chunk it is bound to).
pub open spec fn bound_text(chunks: Seq<BibChunk>, id: Option<i64>) -> Option<Seq<char>>
    decreases chunks.len(),
{
    match id {
        None => None,
        Some(k) => if chunks.len() == 0 {
            None
        } else if chunks[0].id == k {
            Some(chunks[0].raw_text@)
        } else {
            bound_text(chunks.subrange(1, chunks.len() as int), id)
        },
    }
}

/// References worked out so far, replies spent, and the entry a reply is
/// needed for, if the work stopped there.
pub struct RefState {
    pub items: Seq<RefModel>,
    pub used: int,
    pub need: Option<Seq<char>>,
}

/// The references of the first `n` markers, skipping numbers seen before.
pub open spec fn ref_fold(
    content: Seq<char>,
    ms: Seq<Marker>,
    n: int,
    ov: Seq<((i64, i64), CitationModel)>,
    bound: Option<Seq<char>>,
    chunk: i64,
    replies: Seq<Result<Seq<char>, LlmErrorModel>>,
) -> RefState
    decreases n,
{
    if n <= 0 {
        RefState { items: seq![], used: 0, need: None }
    } else {
        let st = ref_fold(content, ms, n - 1, ov, bound, chunk, replies);
        let m = ms[n - 1];
        if st.need is Some || distinct_nums(ms.take(n - 1)).contains(m.num) {
            st
        } else {
            let text = text_of_range(content, m.start as int, m.end as int);
            match override_for(ov, chunk, m.num as i64) {
                Some(c) => RefState {
                    items: st.items.push(
                        RefModel { marker: text, kind: CitationKind::Manual, citation: Some(c) },
                    ),
                    used: st.used,
                    need: None,
                },
                None => {
                    let entry = match bound {
                        Some(raw) => bibliography_entry_s(raw, m.num),
                        None => None,
                    };
                    match entry {
                        None => RefState {
                            items: st.items.push(
                                RefModel {
                                    marker: text,
                                    kind: CitationKind::Unresolved,
                                    citation: None,
                                },
                            ),
                            used: st.used,
                            need: None,
                        },
                        Some(e) => if st.used < replies.len() {
                            let c = entry_citation_s(e, replies[st.used]);
                            RefState {
                                items: st.items.push(
                                    RefModel {
                                        marker: text,
                                        kind: if c is Some {
                                            CitationKind::CitedPaper
                                        } else {
                                            CitationKind::Unresolved
                                        },
                                        citation: c,
                                    },
                                ),
                                used: st.used + 1,
                                need: None,
                            }
                        } else {
                            RefState { items: st.items, used: st.used, need: Some(e) }
                        },
                    }
                },
            }
        }
    }
}

/// The next thing working out an excerpt's references needs.
#[derive(Debug)]
pub enum RefStep {
    Ask(LlmRequest),
    Done(Vec<ReferenceItem>),
}

pub enum RefStepModel {
    Ask(Seq<char>, Seq<char>),
    Done(Seq<RefModel>),
}

impl View for RefStep {
    type V = RefStepModel;

    open spec fn view(&self) -> RefStepModel {
        match self {
            RefStep::Ask(q) => RefStepModel::Ask(q.system@, q.user@),
            RefStep::Done(v) => RefStepModel::Done(refs_view(v@)),
        }
    }
}

/// The references of one excerpt, one per distinct marker in order of
/// appearance (none without markers), given the model's replies so far: a
/// correction by hand for that marker (`manual`); else the entry of the
/// excerpt's bound bibliography, read by the model or the heuristics
/// (`cited_paper`); else `unresolved`. When an entry still needs the model,
/// the question to ask.
pub open spec fn references_step_s(
    note: NoteModel,
    chunks: Seq<BibChunk>,
    ov: Seq<((i64, i64), CitationModel)>,
    replies: Seq<Result<Seq<char>, LlmErrorModel>>,
) -> RefStepModel {
    let ms = scan_markers_s(note.content);
    let chunk = match note.bib_chunk_id {
        Some(k) => k,
        None => 0,
    };
    let st = ref_fold(
        note.content,
        ms,
        ms.len() as int,
        ov,
        bound_text(chunks, note.bib_chunk_id),
        chunk,
        replies,
    );
    match st.need {
        Some(e) => RefStepModel::Ask(entry_prompt_s(), e),
        None => RefStepModel::Done(st.items),
    }
}

fn override_for_exec(ov: &Vec<((i64, i64), Citation)>, chunk: i64, num: i64) -> (r: Option<Citation>)
    ensures
        opt_cite_view(r) == override_for(overrides_view(ov@), chunk, num),
{
    let ghost v = overrides_view(ov@);
    let mut i: usize = 0;
    proof {
        assert(v.subrange(0, v.len() as int) =~= v);
    }
    while i < ov.len()
        invariant
            0 <= i <= ov.len(),
            v == overrides_view(ov@),
            v.len() == ov.len(),
            override_for(v, chunk, num) == override_for(v.subrange(i as int, v.len() as int), chunk, num),
        decreases ov.len() - i,
    {
        proof {
            let x = v.subrange(i as int, v.len() as int);
            assert(x[0] == v[i as int]);
            assert(x.subrange(1, x.len() as int) =~= v.subrange(i + 1, v.len() as int));
        }
        if ov[i].0.0 == chunk && ov[i].0.1 == num {
            return copy_opt_citation(&Some(ov[i].1.duplicate()));
        }
        i = i + 1;
    }
    None
}

fn bound_text_exec(chunks: &Vec<BibChunk>, id: Option<i64>) -> (r: Option<String>)
    ensures
        crate::store::ov(r) == bound_text(chunks@, id),
{
    let k = match id {
        Some(k) => k,
        None => {
            return None;
        },
    };
    let mut i: usize = 0;
    proof {
        assert(chunks@.subrange(0, chunks@.len() as int) =~= chunks@);
    }
    while i < chunks.len()
        invariant
            0 <= i <= chunks.len(),
            id == Some(k),
            bound_text(chunks@, id) == bound_text(chunks@.subrange(i as int, chunks@.len() as int), id),
        decreases chunks.len() - i,
    {
        proof {
            let x = chunks@.subrange(i as int, chunks@.len() as int);
            assert(x[0] == chunks@[i as int]);
            assert(x.subrange(1, x.len() as int) =~= chunks@.subrange(i + 1, chunks@.len() as int));
        }
        if chunks[i].id == k {
            return Some(copy_string(&chunks[i].raw_text));
        }
        i = i + 1;
    }
    None
}

/// One step of working out an excerpt's references (see
/// `references_step_s`): `chunks` are the paper's bibliographies,
/// `overrides` its corrections by hand, `replies` the model's answers to
/// the questions asked so far, in order.
pub fn references_step(
    note: &Note,
    chunks: &Vec<BibChunk>,
    overrides: &Vec<((i64, i64), Citation)>,
    replies: &Vec<Result<String, LlmError>>,
) -> (r: RefStep)
    ensures
        r@ == references_step_s(note@, chunks@, overrides_view(overrides@), replies_view(replies@)),
{
    let content = note.content.as_str();
    let cv = chars_of(content);
    let ms = scan_markers(content);
    let chunk = match note.bib_chunk_id {
        Some(k) => k,
        None => CURRENT_PAPER_CHUNK,
    };
    let bound = bound_text_exec(chunks, note.bib_chunk_id);
    let ghost ovv = overrides_view(overrides@);
    let ghost rv = replies_view(replies@);
    let ghost bv = crate::store::ov(bound);
    let mut items: Vec<ReferenceItem> = Vec::new();
    let mut used: usize = 0;
    let mut seen: Vec<u32> = Vec::new();
    let mut i: usize = 0;
    proof {
        assert(ms@.take(0) =~= Seq::<Marker>::empty());
        assert(refs_view(items@) =~= Seq::<RefModel>::empty());
    }
    while i < ms.len()
        invariant
            0 <= i <= ms.len(),
            cv@ == note.content@,
            content@ == note.content@,
            ms@ == scan_markers_s(note.content@),
            ovv == overrides_view(overrides@),
            rv == replies_view(replies@),
            rv.len() == replies.len(),
            bv == crate::store::ov(bound),
            bv == bound_text(chunks@, note.bib_chunk_id),
            chunk == (match note.bib_chunk_id {
                Some(k) => k,
                None => 0,
            }),
            seen@ == distinct_nums(ms@.take(i as int)),
            ({
                let st = ref_fold(note.content@, ms@, i as int, ovv, bv, chunk, rv);
                &&& st.need is None
                &&& st.items == refs_view(items@)
                &&& st.used == used as int
            }),
            used <= replies.len(),
        decreases ms.len() - i,
    {
        proof {
            lemma_take_step(ms@, i as int);
        }
        let m = ms[i];
        let mut already = false;
        let mut k: usize = 0;
        while k < seen.len()
            invariant
                0 <= k <= seen.len(),
                already <==> seen@.take(k as int).contains(m.num),
            decreases seen.len() - k,
        {
            if seen[k] == m.num {
                already = true;
            }
            proof {
                let t0 = seen@.take(k as int);
                let t1 = seen@.take(k + 1);
                assert(t1 =~= t0.push(seen@[k as int]));
                if t0.contains(m.num) {
                    let j = choose|j: int| 0 <= j < t0.len() && t0[j] == m.num;
                    assert(t1[j] == m.num);
                }
                if seen@[k as int] == m.num {
                    assert(t1[k as int] == m.num);
                }
                if t1.contains(m.num) {
                    let j = choose|j: int| 0 <= j < t1.len() && t1[j] == m.num;
                    if j < k {
                        assert(t0[j] == m.num);
                    }
                }
            }
            k = k + 1;
        }
        proof {
            assert(seen@.take(seen.len() as int) =~= seen@);
        }
        if !already {
            let ghost s0 = seen@;
            seen.push(m.num);
            proof {
                assert(seen@ =~= s0.push(m.num));
            }
            let text = string_of(&range_text(&cv, m.start, m.end));
            match override_for_exec(overrides, chunk, m.num as i64) {
                Some(c) => {
                    let ghost i0 = items@;
                    items.push(ReferenceItem { marker: text, kind: CitationKind::Manual, citation: Some(c) });
                    proof {
                        assert(refs_view(items@) =~= refs_view(i0).push(ref_view(items@.last())));
                    }
                },
                None => {
                    let entry = match &bound {
                        Some(raw) => extract_bibliography_entry(raw.as_str(), m.num),
                        None => None,
                    };
                    match entry {
                        None => {
                            let ghost i0 = items@;
                            items.push(
                                ReferenceItem {
                                    marker: text,
                                    kind: CitationKind::Unresolved,
                                    citation: None,
                                },
                            );
                            proof {
                                assert(refs_view(items@) =~= refs_view(i0).push(ref_view(items@.last())));
                            }
                        },
                        Some(e) => {
                            if used >= replies.len() {
                                proof {
                                    assert(ref_fold(note.content@, ms@, i + 1, ovv, bv, chunk, rv).need
                                        == Some(e@));
                                    lemma_fold_need_stays(note.content@, ms@, i + 1, ovv, bv, chunk, rv);
                                }
                                return RefStep::Ask(
                                    LlmRequest { system: string_of(&chars_of(entry_prompt())), user: e },
                                );
                            }
                            proof {
                                assert(rv[used as int] == crate::llm::reply_view(replies@[used as int]));
                            }
                            let c = extract_citation_from_entry(e.as_str(), &replies[used]);
                            let kind = if c.is_some() {
                                CitationKind::CitedPaper
                            } else {
                                CitationKind::Unresolved
                            };
                            let ghost i0 = items@;
                            items.push(ReferenceItem { marker: text, kind, citation: c });
                            proof {
                                assert(refs_view(items@) =~= refs_view(i0).push(ref_view(items@.last())));
                            }
                            used = used + 1;
                        },
                    }
                },
            }
        }
        i = i + 1;
    }
    proof {
        lemma_take_full(ms@);
    }
    RefStep::Done(items)
}

proof fn lemma_fold_need_stays(
    content: Seq<char>,
    ms: Seq<Marker>,
    n: int,
    ov: Seq<((i64, i64), CitationModel)>,
    bound: Option<Seq<char>>,
    chunk: i64,
    replies: Seq<Result<Seq<char>, LlmErrorModel>>,
)
    requires
        0 <= n <= ms.len(),
        ref_fold(content, ms, n, ov, bound, chunk, replies).need is Some,
    ensures
        ref_fold(content, ms, ms.len() as int, ov, bound, chunk, replies) == ref_fold(
            content,
            ms,
            n,
            ov,
            bound,
            chunk,
            replies,
        ),
    decreases ms.len() - n,
{
    if n < ms.len() {
        lemma_fold_need_stays(content, ms, n + 1, ov, bound, chunk, replies);
    }
}

} // verus!

verus! {

/// Only the excerpt's own bibliography counts: leaving out every chunk
/// other than the one the excerpt is bound to changes none of its
/// references.
pub proof fn law_only_the_bound_bibliography_counts(
    note: NoteModel,
    chunks: Seq<BibChunk>,
    ov: Seq<((i64, i64), CitationModel)>,
    replies: Seq<Result<Seq<char>, LlmErrorModel>>,
)
    ensures
        references_step_s(note, chunks, ov, replies) == references_step_s(
            note,
            chunks.filter(|c: BibChunk| Some(c.id) == note.bib_chunk_id),
            ov,
            replies,
        ),
{
    lemma_bound_text_filter(chunks, note.bib_chunk_id);
}

proof fn lemma_bound_text_filter(chunks: Seq<BibChunk>, id: Option<i64>)
    ensures
        bound_text(chunks, id) == bound_text(chunks.filter(|c: BibChunk| Some(c.id) == id), id),
    decreases chunks.len(),
{
    let f = |c: BibChunk| Some(c.id) == id;
    if chunks.len() > 0 && id is Some {
        let rest = chunks.subrange(1, chunks.len() as int);
        lemma_bound_text_filter(rest, id);
        assert(chunks =~= seq![chunks[0]] + rest);
        rest.lemma_filter_prepend(chunks[0], f);
        let fr = rest.filter(f);
        if f(chunks[0]) {
            let g = seq![chunks[0]] + fr;
            assert(g[0] == chunks[0]);
        } else {
            assert(Seq::<BibChunk>::empty() + fr =~= fr);
        }
    } else if chunks.len() == 0 {
        reveal(Seq::filter);
        assert(chunks.filter(f) =~= chunks);
    }
}

/// A marker's reference is a correction by hand, a paper of the excerpt's
/// own bibliography, or unmatched: never the paper being read, and never
/// without a citation unless unmatched.
pub proof fn law_markers_never_borrow_current_paper(
    content: Seq<char>,
    ms: Seq<Marker>,
    n: int,
    ov: Seq<((i64, i64), CitationModel)>,
    bound: Option<Seq<char>>,
    chunk: i64,
    replies: Seq<Result<Seq<char>, LlmErrorModel>>,
)
    requires
        0 <= n <= ms.len(),
    ensures
        forall|k: int|
            0 <= k < ref_fold(content, ms, n, ov, bound, chunk, replies).items.len() ==> {
                let r = #[trigger] ref_fold(content, ms, n, ov, bound, chunk, replies).items[k];
                &&& r.kind != CitationKind::CurrentPaper
                &&& r.kind != CitationKind::NoCitation
                &&& (r.kind == CitationKind::Unresolved <==> r.citation is None)
            },
        ref_fold(content, ms, n, ov, bound, chunk, replies).items.len() <= n,
    decreases n,
{
    if n > 0 {
        law_markers_never_borrow_current_paper(content, ms, n - 1, ov, bound, chunk, replies);
        let st = ref_fold(content, ms, n - 1, ov, bound, chunk, replies);
        let st2 = ref_fold(content, ms, n, ov, bound, chunk, replies);
        assert forall|k: int| 0 <= k < st2.items.len() implies {
            let r = #[trigger] st2.items[k];
            &&& r.kind != CitationKind::CurrentPaper
            &&& r.kind != CitationKind::NoCitation
            &&& (r.kind == CitationKind::Unresolved <==> r.citation is None)
        } by {
            if k < st.items.len() {
                assert(st2.items[k] == st.items[k]);
            }
        }
    }
}

/// One reference for each distinct marker number, in order of first
/// appearance: the `k`-th reference is for the `k`-th distinct number, its
/// text is that of a marker with that number, and without a bound
/// bibliography or a correction it is unmatched. Once the work is done
/// (nothing left to ask), there is exactly one reference per number.
pub proof fn law_one_reference_per_marker(
    content: Seq<char>,
    ms: Seq<Marker>,
    n: int,
    ov: Seq<((i64, i64), CitationModel)>,
    bound: Option<Seq<char>>,
    chunk: i64,
    replies: Seq<Result<Seq<char>, LlmErrorModel>>,
)
    requires
        0 <= n <= ms.len(),
    ensures
        ref_fold(content, ms, n, ov, bound, chunk, replies).items.len() <= distinct_nums(
            ms.take(n),
        ).len(),
        ref_fold(content, ms, n, ov, bound, chunk, replies).need is None ==> ref_fold(
            content,
            ms,
            n,
            ov,
            bound,
            chunk,
            replies,
        ).items.len() == distinct_nums(ms.take(n)).len(),
        forall|k: int|
            0 <= k < ref_fold(content, ms, n, ov, bound, chunk, replies).items.len() ==> {
                let r = #[trigger] ref_fold(content, ms, n, ov, bound, chunk, replies).items[k];
                let num = distinct_nums(ms.take(n))[k];
                &&& exists|j: int|
                    0 <= j < n && ms[j].num == num && r.marker == text_of_range(
                        content,
                        ms[j].start as int,
                        ms[j].end as int,
                    )
                &&& (bound is None && override_for(ov, chunk, num as i64) is None ==> r.kind
                    == CitationKind::Unresolved)
            },
    decreases n,
{
    if n > 0 {
        law_one_reference_per_marker(content, ms, n - 1, ov, bound, chunk, replies);
        let st = ref_fold(content, ms, n - 1, ov, bound, chunk, replies);
        let st2 = ref_fold(content, ms, n, ov, bound, chunk, replies);
        let d = distinct_nums(ms.take(n - 1));
        let d2 = distinct_nums(ms.take(n));
        assert(ms.take(n).drop_last() =~= ms.take(n - 1));
        assert(ms.take(n).last() == ms[n - 1]);
        assert forall|k: int| 0 <= k < st2.items.len() implies {
            let r = #[trigger] st2.items[k];
            let num = d2[k];
            &&& exists|j: int|
                0 <= j < n && ms[j].num == num && r.marker == text_of_range(
                    content,
                    ms[j].start as int,
                    ms[j].end as int,
                )
            &&& (bound is None && override_for(ov, chunk, num as i64) is None ==> r.kind
                == CitationKind::Unresolved)
        } by {
            if k < st.items.len() {
                assert(st2.items[k] == st.items[k]);
                assert(d2[k] == d[k]);
                let r = st.items[k];
                let j = choose|j: int|
                    0 <= j < n - 1 && ms[j].num == d[k] && r.marker == text_of_range(
                        content,
                        ms[j].start as int,
                        ms[j].end as int,
                    );
                assert(0 <= j < n && ms[j].num == d2[k]);
            } else {
                assert(k == st.items.len());
                assert(d2[k] == ms[n - 1].num);
                let j = n - 1;
                assert(ms[j].num == d2[k]);
            }
        }
    }
}

/// The references of an excerpt, once nothing is left to ask, are one per
/// distinct marker number of the excerpt, in order of first appearance.
pub proof fn law_references_one_per_marker(
    note: NoteModel,
    chunks: Seq<BibChunk>,
    ov: Seq<((i64, i64), CitationModel)>,
    replies: Seq<Result<Seq<char>, LlmErrorModel>>,
)
    ensures
        references_step_s(note, chunks, ov, replies) matches RefStepModel::Done(items) ==> items.len()
            == crate::citation::markers_s(note.content).len(),
{
    let ms = scan_markers_s(note.content);
    let chunk = match note.bib_chunk_id {
        Some(k) => k,
        None => 0,
    };
    law_one_reference_per_marker(
        note.content,
        ms,
        ms.len() as int,
        ov,
        bound_text(chunks, note.bib_chunk_id),
        chunk,
        replies,
    );
    assert(ms.take(ms.len() as int) =~= ms);
}

/// Once nothing is left to ask, the `k`-th reference of an excerpt is for
/// the `k`-th distinct marker number, and its marker text reads back to
/// that number (a superscript run when its digits fit in a `u32`) —
/// provided the bracket pattern's matches in the excerpt are as the
/// pattern makes them.
pub proof fn law_references_read_back(
    note: NoteModel,
    chunks: Seq<BibChunk>,
    ov: Seq<((i64, i64), CitationModel)>,
    replies: Seq<Result<Seq<char>, LlmErrorModel>>,
)
    requires
        crate::text::byte_len(note.content) <= usize::MAX,
        forall|i: int|
            0 <= i < crate::rx::matches_of(crate::citation::bracket_pattern(), note.content).len()
                ==> crate::citation::bracket_match_ok(
                note.content,
                #[trigger] crate::rx::matches_of(crate::citation::bracket_pattern(), note.content)[i],
            ),
    ensures
        references_step_s(note, chunks, ov, replies) matches RefStepModel::Done(items) ==> {
            &&& items.len() == crate::citation::markers_s(note.content).len()
            &&& forall|k: int|
                0 <= k < items.len() ==> (crate::citation::superscript_value(
                    #[trigger] items[k].marker,
                ) <= u32::MAX ==> crate::citation::marker_number_s(items[k].marker) == Some(
                    crate::citation::markers_s(note.content)[k],
                ))
        },
{
    let ms = scan_markers_s(note.content);
    let chunk = match note.bib_chunk_id {
        Some(k) => k,
        None => 0,
    };
    let bound = bound_text(chunks, note.bib_chunk_id);
    law_references_one_per_marker(note, chunks, ov, replies);
    law_one_reference_per_marker(note.content, ms, ms.len() as int, ov, bound, chunk, replies);
    crate::citation::law_markers_of_text_read_back(note.content);
    assert(ms.take(ms.len() as int) =~= ms);
    let st = ref_fold(note.content, ms, ms.len() as int, ov, bound, chunk, replies);
    assert forall|k: int| 0 <= k < st.items.len() implies (crate::citation::superscript_value(
        #[trigger] st.items[k].marker,
    ) <= u32::MAX ==> crate::citation::marker_number_s(st.items[k].marker) == Some(
        crate::citation::markers_s(note.content)[k],
    )) by {
        let r = st.items[k];
        let j = choose|j: int|
            0 <= j < ms.len() && ms[j].num == distinct_nums(ms.take(ms.len() as int))[k]
                && r.marker == text_of_range(note.content, ms[j].start as int, ms[j].end as int);
        assert(crate::citation::marker_reads_back(note.content, ms[j]));
    }
}

} // verus!
