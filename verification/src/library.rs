//! Papers as the library shows them: excerpts grouped by the paper key they
//! were stored with, newest first, each paper with its bibliographies and
//! the paper being read.
use vstd::prelude::*;

use crate::bibliography::{inspect, inspect_source};
use crate::citation::{detached_s, distinct_nums, reattach_s, scan_markers_s};
use crate::copypairs::{ref_view, refs_view, RefModel};
use crate::source::{strip_title_suffix, strip_title_suffix_s};
use crate::store::{
    copy_opt_citation, copy_reference, copy_string, opt_cite_view, ov, BibChunk, Citation,
    CitationKind, CitationModel, Note, ReferenceItem,
};
use crate::text::{chars_of, eq_chars, string_of, trim, trim_s};

verus! {

/// One bibliography of a paper, with what it shows.
#[derive(Debug, Clone)]
pub struct PaperChunk {
    pub id: i64,
    pub label: String,
    pub raw_text: String,
    pub updated_at: String,
    pub markers: Vec<u32>,
    pub detached: bool,
}

/// One excerpt of a paper.
#[derive(Debug, Clone)]
pub struct Excerpt {
    pub id: i64,
    pub content: String,
    pub created_at: String,
    pub has_marker: bool,
    pub bib_chunk_id: Option<i64>,
    /// In the order of the markers; empty without markers.
    pub references: Vec<ReferenceItem>,
}

/// A paper: the excerpts stored under one key.
#[derive(Debug, Clone)]
pub struct Paper {
    pub key: String,
    pub display_title: String,
    /// The window title as captured; `None` when there is none.
    pub source_title: Option<String>,
    /// No excerpt with markers has a reference still unmatched.
    pub bib_ready: bool,
    pub found_in: Option<Citation>,
    /// Whether `found_in` was written by hand.
    pub found_in_manual: bool,
    pub last_at: String,
    pub chunks: Vec<PaperChunk>,
    pub excerpts: Vec<Excerpt>,
}

pub struct ChunkModel {
    pub id: i64,
    pub label: Seq<char>,
    pub raw_text: Seq<char>,
    pub updated_at: Seq<char>,
    pub markers: Seq<u32>,
    pub detached: bool,
}

pub struct ExcerptModel {
    pub id: i64,
    pub content: Seq<char>,
    pub created_at: Seq<char>,
    pub has_marker: bool,
    pub bib_chunk_id: Option<i64>,
    pub references: Seq<RefModel>,
}

pub struct PaperModel {
    pub key: Seq<char>,
    pub display_title: Seq<char>,
    pub source_title: Option<Seq<char>>,
    pub bib_ready: bool,
    pub found_in: Option<CitationModel>,
    pub found_in_manual: bool,
    pub last_at: Seq<char>,
    pub chunks: Seq<ChunkModel>,
    pub excerpts: Seq<ExcerptModel>,
}

impl View for PaperChunk {
    type V = ChunkModel;

    open spec fn view(&self) -> ChunkModel {
        ChunkModel {
            id: self.id,
            label: self.label@,
            raw_text: self.raw_text@,
            updated_at: self.updated_at@,
            markers: self.markers@,
            detached: self.detached,
        }
    }
}

impl View for Excerpt {
    type V = ExcerptModel;

    open spec fn view(&self) -> ExcerptModel {
        ExcerptModel {
            id: self.id,
            content: self.content@,
            created_at: self.created_at@,
            has_marker: self.has_marker,
            bib_chunk_id: self.bib_chunk_id,
            references: refs_view(self.references@),
        }
    }
}

pub open spec fn chunks_view(v: Seq<PaperChunk>) -> Seq<ChunkModel> {
    v.map_values(|c: PaperChunk| c@)
}

pub open spec fn excerpts_view(v: Seq<Excerpt>) -> Seq<ExcerptModel> {
    v.map_values(|e: Excerpt| e@)
}

impl View for Paper {
    type V = PaperModel;

    open spec fn view(&self) -> PaperModel {
        PaperModel {
            key: self.key@,
            display_title: self.display_title@,
            source_title: ov(self.source_title),
            bib_ready: self.bib_ready,
            found_in: opt_cite_view(self.found_in),
            found_in_manual: self.found_in_manual,
            last_at: self.last_at@,
            chunks: chunks_view(self.chunks@),
            excerpts: excerpts_view(self.excerpts@),
        }
    }
}

pub open spec fn papers_view(v: Seq<Paper>) -> Seq<PaperModel> {
    v.map_values(|p: Paper| p@)
}

// ---------------------------------------------------------------------------
// Titles and the paper being read
// ---------------------------------------------------------------------------

/// The title a paper is shown under: the recognised paper's title (cleaned
/// of an application suffix), else the cleaned window title, else the key
/// unless it is the key of an excerpt without a title, else `未知来源`.
pub open spec fn display_title_s(
    key: Seq<char>,
    source_title: Option<Seq<char>>,
    found_in: Option<CitationModel>,
) -> Seq<char> {
    let from_found = match found_in {
        Some(c) => strip_title_suffix_s(trim_s(c.title)),
        None => seq![],
    };
    let cleaned = trim_s(
        match source_title {
            Some(s) => strip_title_suffix_s(s),
            None => seq![],
        },
    );
    if trim_s(from_found).len() > 0 {
        from_found
    } else if cleaned.len() > 0 {
        cleaned
    } else if key.len() > 0 && key[0] != '\0' {
        key
    } else {
        "未知来源"@
    }
}

pub fn display_title_of(key: &str, source_title: Option<&str>, found_in: Option<&Citation>) -> (r:
    String)
    ensures
        r@ == display_title_s(
            key@,
            crate::extraction::opt_str_view(source_title),
            match found_in {
                Some(c) => Some(c@),
                None => None,
            },
        ),
{
    match found_in {
        Some(c) => {
            let tt = string_of(&trim(&chars_of(c.title.as_str())));
            let t = strip_title_suffix(tt.as_str());
            if trim(&chars_of(t.as_str())).len() > 0 {
                return t;
            }
        },
        None => {},
    }
    let cleaned = match source_title {
        Some(s) => trim(&chars_of(strip_title_suffix(s).as_str())),
        None => Vec::new(),
    };
    proof {
        reveal_strlit("");
    }
    if cleaned.len() > 0 {
        return string_of(&cleaned);
    }
    let kv = chars_of(key);
    if kv.len() > 0 && kv[0] != '\0' {
        return string_of(&kv);
    }
    string_of(&chars_of("未知来源"))
}

/// The paper being read: a correction written by hand wins over the one
/// recognised; the flag says which it is.
pub fn found_in_of(manual: Option<Citation>, recognised: Option<Citation>) -> (r: (
    Option<Citation>,
    bool,
))
    ensures
        manual is Some ==> opt_cite_view(r.0) == opt_cite_view(manual) && r.1,
        manual is None ==> opt_cite_view(r.0) == opt_cite_view(recognised) && !r.1,
{
    match manual {
        Some(c) => (Some(c), true),
        None => (recognised, false),
    }
}

pub open spec fn chunk_model_s(c: BibChunk) -> ChunkModel {
    ChunkModel {
        id: c.id,
        label: c.label@,
        raw_text: c.raw_text@,
        updated_at: c.updated_at@,
        markers: distinct_nums(scan_markers_s(inspect_source(c.raw_text@))),
        detached: reattach_s(c.raw_text@) is None && detached_s(c.raw_text@),
    }
}

/// A stored bibliography with its markers and whether they are cut off.
pub fn paper_chunk_of(c: &BibChunk) -> (r: PaperChunk)
    ensures
        r@ == chunk_model_s(*c),
{
    let info = inspect(c.raw_text.as_str());
    PaperChunk {
        id: c.id,
        label: copy_string(&c.label),
        raw_text: copy_string(&c.raw_text),
        updated_at: copy_string(&c.updated_at),
        markers: info.markers,
        detached: info.detached,
    }
}

// ---------------------------------------------------------------------------
// Grouping
// ---------------------------------------------------------------------------

/// A group of excerpts under one key: the key, the first excerpt's window
/// title (trimmed, when not blank) and the indices of its excerpts.
pub struct GroupModel {
    pub key: Seq<char>,
    pub source_title: Option<Seq<char>>,
    pub members: Seq<int>,
}

pub open spec fn raw_title_s(t: Option<Seq<char>>) -> Option<Seq<char>> {
    crate::extraction::clean_title(t)
}

/// Index of the group with `key`.
pub open spec fn group_index(gs: Seq<GroupModel>, key: Seq<char>) -> Option<int>
    decreases gs.len(),
{
    if gs.len() == 0 {
        None
    } else {
        match group_index(gs.drop_last(), key) {
            Some(i) => Some(i),
            None => if gs.last().key == key {
                Some(gs.len() - 1)
            } else {
                None
            },
        }
    }
}

/// Groups of the first `n` notes, in order of first appearance.
pub open spec fn groups_s(notes: Seq<Note>, n: int) -> Seq<GroupModel>
    decreases n,
{
    if n <= 0 {
        seq![]
    } else {
        let gs = groups_s(notes, n - 1);
        let note = notes[n - 1];
        match group_index(gs, note.paper_key@) {
            Some(j) => gs.update(
                j,
                GroupModel {
                    key: gs[j].key,
                    source_title: gs[j].source_title,
                    members: gs[j].members.push(n - 1),
                },
            ),
            None => gs.push(
                GroupModel {
                    key: note.paper_key@,
                    source_title: raw_title_s(ov(note.source_title)),
                    members: seq![n - 1],
                },
            ),
        }
    }
}

/// A group under construction.
#[derive(Debug)]
pub struct NoteGroup {
    pub key: String,
    pub source_title: Option<String>,
    pub members: Vec<usize>,
}

pub open spec fn group_view(g: NoteGroup) -> GroupModel {
    GroupModel {
        key: g.key@,
        source_title: ov(g.source_title),
        members: g.members@.map_values(|i: usize| i as int),
    }
}

pub open spec fn groups_view(v: Seq<NoteGroup>) -> Seq<GroupModel> {
    v.map_values(|g: NoteGroup| group_view(g))
}

proof fn lemma_group_index_bounds(gs: Seq<GroupModel>, key: Seq<char>)
    ensures
        group_index(gs, key) matches Some(i) ==> 0 <= i < gs.len() && gs[i].key == key,
        group_index(gs, key) is None ==> forall|i: int| 0 <= i < gs.len() ==> gs[i].key != key,
    decreases gs.len(),
{
    if gs.len() > 0 {
        lemma_group_index_bounds(gs.drop_last(), key);
        assert forall|i: int| 0 <= i < gs.len() - 1 implies gs[i] == gs.drop_last()[i] by {}
    }
}

proof fn lemma_groups_members(notes: Seq<Note>, n: int)
    requires
        0 <= n <= notes.len(),
    ensures
        forall|j: int, k: int|
            0 <= j < groups_s(notes, n).len() && 0 <= k < groups_s(notes, n)[j].members.len()
                ==> 0 <= #[trigger] groups_s(notes, n)[j].members[k] < n,
    decreases n,
{
    if n > 0 {
        lemma_groups_members(notes, n - 1);
        lemma_group_index_bounds(groups_s(notes, n - 1), notes[n - 1].paper_key@);
    }
}

fn group_index_exec(gs: &Vec<NoteGroup>, key: &Vec<char>) -> (r: Option<usize>)
    ensures
        r matches Some(i) ==> group_index(groups_view(gs@), key@) == Some(i as int) && i < gs.len(),
        r is None ==> group_index(groups_view(gs@), key@) is None,
{
    let ghost gv = groups_view(gs@);
    let mut i: usize = 0;
    proof {
        assert(gv.take(0) =~= Seq::<GroupModel>::empty());
    }
    while i < gs.len()
        invariant
            0 <= i <= gs.len(),
            gv == groups_view(gs@),
            gv.len() == gs.len(),
            group_index(gv.take(i as int), key@) is None,
        decreases gs.len() - i,
    {
        proof {
            assert(gv.take(i + 1).drop_last() =~= gv.take(i as int));
            assert(gv.take(i + 1).last() == gv[i as int]);
        }
        if eq_chars(&chars_of(gs[i].key.as_str()), key) {
            proof {
                assert(group_index(gv.take(i + 1), key@) == Some(i as int));
                lemma_group_index_prefix(gv, i + 1, key@);
            }
            return Some(i);
        }
        i = i + 1;
    }
    proof {
        assert(gv.take(gs.len() as int) =~= gv);
    }
    None
}

proof fn lemma_group_index_prefix(gs: Seq<GroupModel>, n: int, key: Seq<char>)
    requires
        0 <= n <= gs.len(),
        group_index(gs.take(n), key) is Some,
    ensures
        group_index(gs, key) == group_index(gs.take(n), key),
    decreases gs.len() - n,
{
    if n < gs.len() {
        assert(gs.take(n + 1).drop_last() =~= gs.take(n));
        lemma_group_index_prefix(gs, n + 1, key);
    } else {
        assert(gs.take(n) =~= gs);
    }
}

/// Groups the notes by their stored paper key, in order of first
/// appearance; each group keeps its notes in the given order.
pub fn group_notes(notes: &Vec<Note>) -> (r: Vec<NoteGroup>)
    ensures
        groups_view(r@) == groups_s(notes@, notes.len() as int),
{
    let mut gs: Vec<NoteGroup> = Vec::new();
    let mut n: usize = 0;
    proof {
        assert(groups_view(gs@) =~= Seq::<GroupModel>::empty());
    }
    while n < notes.len()
        invariant
            0 <= n <= notes.len(),
            groups_view(gs@) == groups_s(notes@, n as int),
        decreases notes.len() - n,
    {
        let key = chars_of(notes[n].paper_key.as_str());
        let ghost g0 = groups_view(gs@);
        match group_index_exec(&gs, &key) {
            Some(j) => {
                let ghost gs0 = gs@;
                let mut g = gs.remove(j);
                let ghost m0 = g.members@;
                g.members.push(n);
                let ghost gnew = g;
                proof {
                    assert(gnew.members@ =~= m0.push(n));
                    assert(group_view(gnew).members =~= group_view(gs0[j as int]).members.push(
                        n as int,
                    ));
                }
                gs.insert(j, g);
                proof {
                    assert(gs@ =~= gs0.update(j as int, gnew));
                    assert(groups_view(gs@) =~= g0.update(
                        j as int,
                        GroupModel {
                            key: g0[j as int].key,
                            source_title: g0[j as int].source_title,
                            members: g0[j as int].members.push(n as int),
                        },
                    ));
                }
            },
            None => {
                let title = match &notes[n].source_title {
                    Some(t) => {
                        let tt = trim(&chars_of(t.as_str()));
                        if tt.len() > 0 {
                            Some(string_of(&tt))
                        } else {
                            None
                        }
                    },
                    None => None,
                };
                let mut members: Vec<usize> = Vec::new();
                members.push(n);
                proof {
                    assert(ov(title) == raw_title_s(ov(notes@[n as int].source_title)));
                    assert(members@.map_values(|i: usize| i as int) =~= seq![n as int]);
                }
                gs.push(NoteGroup { key: string_of(&key), source_title: title, members });
                proof {
                    assert(groups_view(gs@) =~= g0.push(
                        GroupModel {
                            key: notes@[n as int].paper_key@,
                            source_title: raw_title_s(ov(notes@[n as int].source_title)),
                            members: seq![n as int],
                        },
                    ));
                }
            },
        }
        n = n + 1;
    }
    gs
}

// ---------------------------------------------------------------------------
// Papers from groups
// ---------------------------------------------------------------------------

/// What the store holds for a paper key besides its excerpts: the paper
/// being read (and whether it was written by hand) and its bibliographies.
#[derive(Debug)]
pub struct PaperData {
    pub key: String,
    pub found_in: Option<Citation>,
    pub found_in_manual: bool,
    pub chunks: Vec<BibChunk>,
}

pub struct DataModel {
    pub key: Seq<char>,
    pub found_in: Option<CitationModel>,
    pub found_in_manual: bool,
    pub chunks: Seq<BibChunk>,
}

pub open spec fn data_view(d: PaperData) -> DataModel {
    DataModel {
        key: d.key@,
        found_in: opt_cite_view(d.found_in),
        found_in_manual: d.found_in_manual,
        chunks: d.chunks@,
    }
}

pub open spec fn datas_view(v: Seq<PaperData>) -> Seq<DataModel> {
    v.map_values(|d: PaperData| data_view(d))
}

/// The references stored for each excerpt id.
pub open spec fn note_refs_view(v: Seq<(i64, Vec<ReferenceItem>)>) -> Seq<(i64, Seq<RefModel>)> {
    v.map_values(|e: (i64, Vec<ReferenceItem>)| (e.0, refs_view(e.1@)))
}

/// The references of excerpt `id` (the first entry for it), none when it
/// has no entry.
pub open spec fn refs_for(refs: Seq<(i64, Seq<RefModel>)>, id: i64) -> Seq<RefModel>
    decreases refs.len(),
{
    if refs.len() == 0 {
        seq![]
    } else if refs[0].0 == id {
        refs[0].1
    } else {
        refs_for(refs.subrange(1, refs.len() as int), id)
    }
}

/// The stored data of paper `key` (the first entry for it).
pub open spec fn data_for(data: Seq<DataModel>, key: Seq<char>) -> Option<DataModel>
    decreases data.len(),
{
    if data.len() == 0 {
        None
    } else if data[0].key == key {
        Some(data[0])
    } else {
        data_for(data.subrange(1, data.len() as int), key)
    }
}

/// Strict lexicographic order of texts by character (the order of `str`).
pub open spec fn text_lt(a: Seq<char>, b: Seq<char>) -> bool
    decreases a.len(),
{
    if a.len() == 0 {
        b.len() > 0
    } else if b.len() == 0 {
        false
    } else if a[0] != b[0] {
        a[0] < b[0]
    } else {
        text_lt(a.subrange(1, a.len() as int), b.subrange(1, b.len() as int))
    }
}

pub fn str_lt(a: &str, b: &str) -> (r: bool)
    ensures
        r == text_lt(a@, b@),
{
    let av = chars_of(a);
    let bv = chars_of(b);
    let mut i: usize = 0;
    proof {
        assert(av@.subrange(0, av@.len() as int) =~= av@);
        assert(bv@.subrange(0, bv@.len() as int) =~= bv@);
    }
    while i < av.len() && i < bv.len() && av[i] == bv[i]
        invariant
            0 <= i <= av.len(),
            i <= bv.len(),
            av@ == a@,
            bv@ == b@,
            text_lt(a@, b@) == text_lt(
                av@.subrange(i as int, av@.len() as int),
                bv@.subrange(i as int, bv@.len() as int),
            ),
        decreases av.len() - i,
    {
        proof {
            let x = av@.subrange(i as int, av@.len() as int);
            let y = bv@.subrange(i as int, bv@.len() as int);
            assert(x[0] == av@[i as int]);
            assert(y[0] == bv@[i as int]);
            assert(x.subrange(1, x.len() as int) =~= av@.subrange(i + 1, av@.len() as int));
            assert(y.subrange(1, y.len() as int) =~= bv@.subrange(i + 1, bv@.len() as int));
        }
        i = i + 1;
    }
    proof {
        let x = av@.subrange(i as int, av@.len() as int);
        let y = bv@.subrange(i as int, bv@.len() as int);
        if i < av.len() {
            assert(x[0] == av@[i as int]);
        }
        if i < bv.len() {
            assert(y[0] == bv@[i as int]);
        }
    }
    if i >= av.len() {
        i < bv.len()
    } else if i >= bv.len() {
        false
    } else {
        av[i] < bv[i]
    }
}

/// The latest of the times of the notes at `members` (the empty text when
/// there are none).
pub open spec fn last_at_s(notes: Seq<Note>, members: Seq<int>) -> Seq<char>
    decreases members.len(),
{
    if members.len() == 0 {
        seq![]
    } else {
        let prev = last_at_s(notes, members.drop_last());
        let t = notes[members.last()].created_at@;
        if text_lt(prev, t) {
            t
        } else {
            prev
        }
    }
}

pub open spec fn excerpt_s(n: Note, refs: Seq<(i64, Seq<RefModel>)>) -> ExcerptModel {
    ExcerptModel {
        id: n.id,
        content: n.content@,
        created_at: n.created_at@,
        has_marker: n.has_marker,
        bib_chunk_id: n.bib_chunk_id,
        references: refs_for(refs, n.id),
    }
}

/// No excerpt with markers has a reference that is still unmatched.
pub open spec fn bib_ready_s(es: Seq<ExcerptModel>) -> bool {
    forall|i: int, k: int|
        0 <= i < es.len() && es[i].has_marker && 0 <= k < es[i].references.len() ==> (
        #[trigger] es[i].references[k]).kind != CitationKind::Unresolved
}

/// The paper of one group of excerpts.
pub open spec fn paper_s(
    g: GroupModel,
    notes: Seq<Note>,
    refs: Seq<(i64, Seq<RefModel>)>,
    data: Seq<DataModel>,
) -> PaperModel {
    let d = data_for(data, g.key);
    let found_in = match d {
        Some(x) => x.found_in,
        None => None,
    };
    let excerpts = g.members.map_values(|i: int| excerpt_s(notes[i], refs));
    PaperModel {
        key: g.key,
        display_title: display_title_s(g.key, g.source_title, found_in),
        source_title: g.source_title,
        bib_ready: bib_ready_s(excerpts),
        found_in: found_in,
        found_in_manual: match d {
            Some(x) => x.found_in_manual,
            None => false,
        },
        last_at: last_at_s(notes, g.members),
        chunks: match d {
            Some(x) => x.chunks.map_values(|c: BibChunk| chunk_model_s(c)),
            None => seq![],
        },
        excerpts: excerpts,
    }
}

fn refs_for_exec(refs: &Vec<(i64, Vec<ReferenceItem>)>, id: i64) -> (r: Vec<ReferenceItem>)
    ensures
        refs_view(r@) == refs_for(note_refs_view(refs@), id),
{
    let ghost rv = note_refs_view(refs@);
    let mut i: usize = 0;
    proof {
        assert(rv.subrange(0, rv.len() as int) =~= rv);
    }
    while i < refs.len()
        invariant
            0 <= i <= refs.len(),
            rv == note_refs_view(refs@),
            rv.len() == refs.len(),
            refs_for(rv, id) == refs_for(rv.subrange(i as int, rv.len() as int), id),
        decreases refs.len() - i,
    {
        proof {
            let x = rv.subrange(i as int, rv.len() as int);
            assert(x[0] == rv[i as int]);
            assert(x.subrange(1, x.len() as int) =~= rv.subrange(i + 1, rv.len() as int));
        }
        if refs[i].0 == id {
            let src = &refs[i].1;
            let mut out: Vec<ReferenceItem> = Vec::new();
            let mut k: usize = 0;
            while k < src.len()
                invariant
                    0 <= k <= src.len(),
                    refs_view(out@) == refs_view(src@).take(k as int),
                decreases src.len() - k,
            {
                let ghost o0 = out@;
                out.push(copy_reference(&src[k]));
                proof {
                    assert(refs_view(out@) =~= refs_view(o0).push(ref_view(src@[k as int])));
                    assert(refs_view(src@).take(k + 1) =~= refs_view(src@).take(k as int).push(
                        ref_view(src@[k as int]),
                    ));
                }
                k = k + 1;
            }
            proof {
                assert(refs_view(src@).take(src.len() as int) =~= refs_view(src@));
            }
            return out;
        }
        i = i + 1;
    }
    proof {
        assert(refs_view(Seq::<ReferenceItem>::empty()) =~= Seq::<RefModel>::empty());
    }
    Vec::new()
}

fn data_for_exec(data: &Vec<PaperData>, key: &str) -> (r: Option<usize>)
    ensures
        r matches Some(i) ==> i < data.len() && data_for(datas_view(data@), key@) == Some(
            data_view(data@[i as int]),
        ),
        r is None ==> data_for(datas_view(data@), key@) is None,
{
    let ghost dv = datas_view(data@);
    let kv = chars_of(key);
    let mut i: usize = 0;
    proof {
        assert(dv.subrange(0, dv.len() as int) =~= dv);
    }
    while i < data.len()
        invariant
            0 <= i <= data.len(),
            kv@ == key@,
            dv == datas_view(data@),
            dv.len() == data.len(),
            data_for(dv, key@) == data_for(dv.subrange(i as int, dv.len() as int), key@),
        decreases data.len() - i,
    {
        proof {
            let x = dv.subrange(i as int, dv.len() as int);
            assert(x[0] == dv[i as int]);
            assert(x.subrange(1, x.len() as int) =~= dv.subrange(i + 1, dv.len() as int));
        }
        if eq_chars(&chars_of(data[i].key.as_str()), &kv) {
            return Some(i);
        }
        i = i + 1;
    }
    None
}

fn excerpt_of(n: &Note, refs: &Vec<(i64, Vec<ReferenceItem>)>) -> (r: Excerpt)
    ensures
        r@ == excerpt_s(*n, note_refs_view(refs@)),
{
    Excerpt {
        id: n.id,
        content: copy_string(&n.content),
        created_at: copy_string(&n.created_at),
        has_marker: n.has_marker,
        bib_chunk_id: n.bib_chunk_id,
        references: refs_for_exec(refs, n.id),
    }
}

fn bib_ready_exec(es: &Vec<Excerpt>) -> (r: bool)
    ensures
        r == bib_ready_s(excerpts_view(es@)),
{
    let ghost ev = excerpts_view(es@);
    let mut i: usize = 0;
    while i < es.len()
        invariant
            0 <= i <= es.len(),
            ev == excerpts_view(es@),
            ev.len() == es.len(),
            forall|j: int, k: int|
                0 <= j < i && ev[j].has_marker && 0 <= k < ev[j].references.len() ==> (
                #[trigger] ev[j].references[k]).kind != CitationKind::Unresolved,
        decreases es.len() - i,
    {
        proof {
            assert(ev[i as int] == es@[i as int]@);
        }
        if es[i].has_marker {
            let mut k: usize = 0;
            while k < es[i].references.len()
                invariant
                    0 <= k <= es@[i as int].references.len(),
                    0 <= i < es.len(),
                    ev == excerpts_view(es@),
                    ev[i as int] == es@[i as int]@,
                    es@[i as int].has_marker,
                    forall|m: int|
                        0 <= m < k ==> (#[trigger] ev[i as int].references[m]).kind
                            != CitationKind::Unresolved,
                decreases es@[i as int].references.len() - k,
            {
                proof {
                    assert(ev[i as int].references[k as int] == ref_view(
                        es@[i as int].references@[k as int],
                    ));
                }
                if es[i].references[k].kind == CitationKind::Unresolved {
                    proof {
                        assert(ev[i as int].has_marker);
                        assert(ev[i as int].references[k as int].kind == CitationKind::Unresolved);
                    }
                    return false;
                }
                k = k + 1;
            }
        }
        i = i + 1;
    }
    true
}

/// The paper of one group (see `paper_s`).
#[verifier::rlimit(40)]
#[verifier::spinoff_prover]
pub fn paper_of(
    g: &NoteGroup,
    notes: &Vec<Note>,
    refs: &Vec<(i64, Vec<ReferenceItem>)>,
    data: &Vec<PaperData>,
) -> (r: Paper)
    requires
        forall|k: int| 0 <= k < g.members.len() ==> #[trigger] g.members@[k] < notes.len(),
    ensures
        r@ == paper_s(group_view(*g), notes@, note_refs_view(refs@), datas_view(data@)),
{
    let ghost gv = group_view(*g);
    let ghost rv = note_refs_view(refs@);
    let mut excerpts: Vec<Excerpt> = Vec::new();
    let mut last_at: Vec<char> = Vec::new();
    let mut i: usize = 0;
    while i < g.members.len()
        invariant
            0 <= i <= g.members.len(),
            gv == group_view(*g),
            rv == note_refs_view(refs@),
            forall|k: int| 0 <= k < g.members.len() ==> #[trigger] g.members@[k] < notes.len(),
            excerpts_view(excerpts@) == gv.members.take(i as int).map_values(
                |j: int| excerpt_s(notes@[j], rv),
            ),
            last_at@ == last_at_s(notes@, gv.members.take(i as int)),
        decreases g.members.len() - i,
    {
        let j = g.members[i];
        proof {
            assert(gv.members[i as int] == j as int);
            assert(gv.members.take(i + 1).drop_last() =~= gv.members.take(i as int));
        }
        let ghost e0 = excerpts@;
        let ex = excerpt_of(&notes[j], refs);
        excerpts.push(ex);
        proof {
            assert(excerpts_view(excerpts@) =~= excerpts_view(e0).push(
                excerpt_s(notes@[j as int], rv),
            ));
            assert(gv.members.take(i + 1).map_values(|j: int| excerpt_s(notes@[j], rv))
                =~= gv.members.take(i as int).map_values(|j: int| excerpt_s(notes@[j], rv)).push(
                excerpt_s(notes@[j as int], rv),
            ));
        }
        let t = chars_of(notes[j].created_at.as_str());
        let ls = string_of(&last_at);
        if str_lt(ls.as_str(), notes[j].created_at.as_str()) {
            last_at = t;
        }
        i = i + 1;
    }
    proof {
        assert(gv.members.take(g.members.len() as int) =~= gv.members);
    }
    let (found_in, manual, chunks) = match data_for_exec(data, g.key.as_str()) {
        Some(k) => {
            let d = &data[k];
            let mut cs: Vec<PaperChunk> = Vec::new();
            let mut m: usize = 0;
            while m < d.chunks.len()
                invariant
                    0 <= m <= d.chunks.len(),
                    chunks_view(cs@) == d.chunks@.take(m as int).map_values(
                        |c: BibChunk| chunk_model_s(c),
                    ),
                decreases d.chunks.len() - m,
            {
                let ghost c0 = cs@;
                cs.push(paper_chunk_of(&d.chunks[m]));
                proof {
                    assert(chunks_view(cs@) =~= chunks_view(c0).push(
                        chunk_model_s(d.chunks@[m as int]),
                    ));
                    assert(d.chunks@.take(m + 1).map_values(|c: BibChunk| chunk_model_s(c))
                        =~= d.chunks@.take(m as int).map_values(|c: BibChunk| chunk_model_s(c)).push(
                        chunk_model_s(d.chunks@[m as int]),
                    ));
                }
                m = m + 1;
            }
            proof {
                assert(d.chunks@.take(d.chunks.len() as int) =~= d.chunks@);
            }
            (copy_opt_citation(&d.found_in), d.found_in_manual, cs)
        },
        None => (None, false, Vec::new()),
    };
    let display_title = display_title_of(
        g.key.as_str(),
        match &g.source_title {
            Some(t) => Some(t.as_str()),
            None => None,
        },
        match &found_in {
            Some(c) => Some(c),
            None => None,
        },
    );
    let bib_ready = bib_ready_exec(&excerpts);
    let p = Paper {
        key: copy_string(&g.key),
        display_title,
        source_title: crate::store::copy_opt_string(&g.source_title),
        bib_ready,
        found_in,
        found_in_manual: manual,
        last_at: string_of(&last_at),
        chunks,
        excerpts,
    };
    proof {
        assert(chunks_view(p.chunks@) =~= paper_s(gv, notes@, rv, datas_view(data@)).chunks);
    }
    p
}

// ---------------------------------------------------------------------------
// Newest first
// ---------------------------------------------------------------------------

/// Index of the first text that comes before `x`; the length when none.
pub open spec fn first_less(ts: Seq<Seq<char>>, x: Seq<char>) -> int
    decreases ts.len(),
{
    if ts.len() == 0 {
        0
    } else {
        let f = first_less(ts.drop_last(), x);
        if f < ts.len() - 1 {
            f
        } else if text_lt(ts.last(), x) {
            ts.len() - 1
        } else {
            ts.len() as int
        }
    }
}

pub open spec fn lasts(ps: Seq<PaperModel>) -> Seq<Seq<char>> {
    ps.map_values(|p: PaperModel| p.last_at)
}

/// Papers ordered by their latest excerpt, newest first; papers with the
/// same time keep their order (a stable sort).
pub open spec fn sort_desc(ps: Seq<PaperModel>) -> Seq<PaperModel>
    decreases ps.len(),
{
    if ps.len() == 0 {
        seq![]
    } else {
        let s = sort_desc(ps.drop_last());
        s.insert(first_less(lasts(s), ps.last().last_at), ps.last())
    }
}

proof fn lemma_first_less_bounds(ts: Seq<Seq<char>>, x: Seq<char>)
    ensures
        0 <= first_less(ts, x) <= ts.len(),
    decreases ts.len(),
{
    if ts.len() > 0 {
        lemma_first_less_bounds(ts.drop_last(), x);
    }
}

proof fn lemma_first_less_prefix(ts: Seq<Seq<char>>, n: int, x: Seq<char>)
    requires
        0 <= n <= ts.len(),
        first_less(ts.take(n), x) < n,
    ensures
        first_less(ts, x) == first_less(ts.take(n), x),
    decreases ts.len() - n,
{
    if n < ts.len() {
        assert(ts.take(n + 1).drop_last() =~= ts.take(n));
        lemma_first_less_prefix(ts, n + 1, x);
    } else {
        assert(ts.take(n) =~= ts);
    }
}

fn insert_position(sorted: &Vec<Paper>, x: &str) -> (r: usize)
    ensures
        r as int == first_less(lasts(papers_view(sorted@)), x@),
        r <= sorted.len(),
{
    let ghost ts = lasts(papers_view(sorted@));
    let mut k: usize = 0;
    proof {
        assert(ts.take(0) =~= Seq::<Seq<char>>::empty());
    }
    while k < sorted.len()
        invariant
            0 <= k <= sorted.len(),
            ts == lasts(papers_view(sorted@)),
            ts.len() == sorted.len(),
            first_less(ts.take(k as int), x@) == k,
        decreases sorted.len() - k,
    {
        proof {
            assert(ts.take(k + 1).drop_last() =~= ts.take(k as int));
            assert(ts.take(k + 1).last() == sorted@[k as int].last_at@);
        }
        if str_lt(sorted[k].last_at.as_str(), x) {
            proof {
                lemma_first_less_prefix(ts, k + 1, x@);
            }
            return k;
        }
        k = k + 1;
    }
    proof {
        assert(ts.take(sorted.len() as int) =~= ts);
    }
    k
}

/// The library's papers (see `group_into_papers_s`).
pub open spec fn group_into_papers_s(
    notes: Seq<Note>,
    refs: Seq<(i64, Seq<RefModel>)>,
    data: Seq<DataModel>,
) -> Seq<PaperModel> {
    let gs = groups_s(notes, notes.len() as int);
    sort_desc(gs.map_values(|g: GroupModel| paper_s(g, notes, refs, data)))
}

/// Groups the excerpts into papers by the paper key they were stored with
/// (an excerpt without a title is a paper of its own, as its key is), each
/// paper with its excerpts in the given order, its references, the paper
/// being read and its bibliographies from `data`; newest paper first.
pub fn group_into_papers(
    notes: &Vec<Note>,
    refs: &Vec<(i64, Vec<ReferenceItem>)>,
    data: &Vec<PaperData>,
) -> (r: Vec<Paper>)
    ensures
        papers_view(r@) == group_into_papers_s(notes@, note_refs_view(refs@), datas_view(data@)),
{
    let groups = group_notes(notes);
    let ghost gs = groups_s(notes@, notes.len() as int);
    let ghost all = gs.map_values(
        |g: GroupModel| paper_s(g, notes@, note_refs_view(refs@), datas_view(data@)),
    );
    proof {
        lemma_groups_members(notes@, notes.len() as int);
    }
    let mut sorted: Vec<Paper> = Vec::new();
    let mut i: usize = 0;
    proof {
        assert(all.take(0) =~= Seq::<PaperModel>::empty());
        assert(papers_view(sorted@) =~= Seq::<PaperModel>::empty());
    }
    while i < groups.len()
        invariant
            0 <= i <= groups.len(),
            groups_view(groups@) == gs,
            gs == groups_s(notes@, notes.len() as int),
            all == gs.map_values(
                |g: GroupModel| paper_s(g, notes@, note_refs_view(refs@), datas_view(data@)),
            ),
            forall|j: int, k: int|
                0 <= j < gs.len() && 0 <= k < gs[j].members.len() ==> 0 <= #[trigger] gs[j].members[k]
                    < notes.len(),
            papers_view(sorted@) == sort_desc(all.take(i as int)),
        decreases groups.len() - i,
    {
        proof {
            assert(gs[i as int] == group_view(groups@[i as int]));
            let gi = groups@[i as int];
            assert forall|k: int| 0 <= k < gi.members.len() implies #[trigger] gi.members@[k]
                < notes.len() by {
                assert(gs[i as int].members[k] == gi.members@[k] as int);
            }
        }
        let p = paper_of(&groups[i], notes, refs, data);
        let pos = insert_position(&sorted, p.last_at.as_str());
        let ghost s0 = papers_view(sorted@);
        let ghost pv = p@;
        sorted.insert(pos, p);
        proof {
            assert(all.take(i + 1).drop_last() =~= all.take(i as int));
            assert(all.take(i + 1).last() == pv);
            assert(papers_view(sorted@) =~= s0.insert(pos as int, pv));
        }
        i = i + 1;
    }
    proof {
        assert(all.take(groups.len() as int) =~= all);
    }
    sorted
}

/// Each excerpt id with the title of the paper it belongs to.
pub open spec fn titles_of(ps: Seq<PaperModel>) -> Seq<(i64, Seq<char>)>
    decreases ps.len(),
{
    if ps.len() == 0 {
        seq![]
    } else {
        titles_of(ps.drop_last()) + ps.last().excerpts.map_values(
            |e: ExcerptModel| (e.id, ps.last().display_title),
        )
    }
}

/// For every excerpt of the papers, its id and its paper's title.
pub fn papers_for_notes(papers: &Vec<Paper>) -> (r: Vec<(i64, String)>)
    ensures
        r@.map_values(|e: (i64, String)| (e.0, e.1@)) == titles_of(papers_view(papers@)),
{
    let ghost pv = papers_view(papers@);
    let mut out: Vec<(i64, String)> = Vec::new();
    let mut i: usize = 0;
    proof {
        assert(pv.take(0) =~= Seq::<PaperModel>::empty());
        assert(out@.map_values(|e: (i64, String)| (e.0, e.1@)) =~= Seq::<(i64, Seq<char>)>::empty());
    }
    while i < papers.len()
        invariant
            0 <= i <= papers.len(),
            pv == papers_view(papers@),
            pv.len() == papers.len(),
            out@.map_values(|e: (i64, String)| (e.0, e.1@)) == titles_of(pv.take(i as int)),
        decreases papers.len() - i,
    {
        let p = &papers[i];
        let ghost o0 = out@.map_values(|e: (i64, String)| (e.0, e.1@));
        let ghost ev = excerpts_view(p.excerpts@);
        let mut k: usize = 0;
        while k < p.excerpts.len()
            invariant
                0 <= k <= p.excerpts.len(),
                p == &papers@[i as int],
                ev == excerpts_view(p.excerpts@),
                out@.map_values(|e: (i64, String)| (e.0, e.1@)) == o0 + ev.take(k as int).map_values(
                    |e: ExcerptModel| (e.id, p.display_title@),
                ),
            decreases p.excerpts.len() - k,
        {
            let ghost before = out@;
            out.push((p.excerpts[k].id, copy_string(&p.display_title)));
            proof {
                assert(out@.map_values(|e: (i64, String)| (e.0, e.1@)) =~= before.map_values(
                    |e: (i64, String)| (e.0, e.1@),
                ).push((ev[k as int].id, p.display_title@)));
                assert(ev.take(k + 1).map_values(|e: ExcerptModel| (e.id, p.display_title@))
                    =~= ev.take(k as int).map_values(|e: ExcerptModel| (e.id, p.display_title@)).push(
                    (ev[k as int].id, p.display_title@),
                ));
            }
            k = k + 1;
        }
        proof {
            assert(ev.take(p.excerpts.len() as int) =~= ev);
            assert(pv.take(i + 1).drop_last() =~= pv.take(i as int));
            assert(pv.take(i + 1).last() == p@);
        }
        i = i + 1;
    }
    proof {
        assert(pv.take(papers.len() as int) =~= pv);
    }
    out
}

/// Keys of the papers with an excerpt that has markers but no references
/// yet: their references were never worked out.
pub open spec fn stale_keys_s(ps: Seq<PaperModel>) -> Seq<Seq<char>>
    decreases ps.len(),
{
    if ps.len() == 0 {
        seq![]
    } else {
        let rest = stale_keys_s(ps.drop_last());
        if exists|k: int|
            0 <= k < ps.last().excerpts.len() && (#[trigger] ps.last().excerpts[k]).has_marker
                && ps.last().excerpts[k].references.len() == 0 {
            rest.push(ps.last().key)
        } else {
            rest
        }
    }
}

pub fn stale_keys(papers: &Vec<Paper>) -> (r: Vec<String>)
    ensures
        crate::store::sviews(r@) == stale_keys_s(papers_view(papers@)),
{
    let ghost pv = papers_view(papers@);
    let mut out: Vec<String> = Vec::new();
    let mut i: usize = 0;
    proof {
        assert(pv.take(0) =~= Seq::<PaperModel>::empty());
        assert(crate::store::sviews(out@) =~= Seq::<Seq<char>>::empty());
    }
    while i < papers.len()
        invariant
            0 <= i <= papers.len(),
            pv == papers_view(papers@),
            pv.len() == papers.len(),
            crate::store::sviews(out@) == stale_keys_s(pv.take(i as int)),
        decreases papers.len() - i,
    {
        let p = &papers[i];
        let ghost ev = excerpts_view(p.excerpts@);
        let mut found = false;
        let mut k: usize = 0;
        while k < p.excerpts.len()
            invariant
                0 <= k <= p.excerpts.len(),
                p == &papers@[i as int],
                ev == excerpts_view(p.excerpts@),
                found <==> exists|m: int|
                    0 <= m < k && (#[trigger] ev[m]).has_marker && ev[m].references.len() == 0,
            decreases p.excerpts.len() - k,
        {
            proof {
                assert(ev[k as int] == p.excerpts@[k as int]@);
            }
            if p.excerpts[k].has_marker && p.excerpts[k].references.len() == 0 {
                found = true;
            }
            k = k + 1;
        }
        proof {
            assert(pv.take(i + 1).drop_last() =~= pv.take(i as int));
            assert(pv.take(i + 1).last() == p@);
            assert(p@.excerpts == ev);
        }
        if found {
            let ghost o0 = out@;
            out.push(copy_string(&p.key));
            proof {
                assert(crate::store::sviews(out@) =~= crate::store::sviews(o0).push(p@.key));
            }
        }
        i = i + 1;
    }
    proof {
        assert(pv.take(papers.len() as int) =~= pv);
    }
    out
}

} // verus!

verus! {

proof fn lemma_text_lt_asym(a: Seq<char>, b: Seq<char>)
    ensures
        text_lt(a, b) ==> !text_lt(b, a),
    decreases a.len(),
{
    if a.len() > 0 && b.len() > 0 && a[0] == b[0] {
        lemma_text_lt_asym(a.subrange(1, a.len() as int), b.subrange(1, b.len() as int));
    }
}

proof fn lemma_text_lt_trans(a: Seq<char>, b: Seq<char>, c: Seq<char>)
    ensures
        text_lt(a, b) && text_lt(b, c) ==> text_lt(a, c),
    decreases a.len(),
{
    if a.len() > 0 && b.len() > 0 && c.len() > 0 && a[0] == b[0] && b[0] == c[0] {
        lemma_text_lt_trans(
            a.subrange(1, a.len() as int),
            b.subrange(1, b.len() as int),
            c.subrange(1, c.len() as int),
        );
    }
}

proof fn lemma_text_lt_total(a: Seq<char>, b: Seq<char>)
    ensures
        !text_lt(a, b) && !text_lt(b, a) ==> a == b,
    decreases a.len(),
{
    if a.len() > 0 && b.len() > 0 && a[0] == b[0] {
        let a1 = a.subrange(1, a.len() as int);
        let b1 = b.subrange(1, b.len() as int);
        lemma_text_lt_total(a1, b1);
        if a1 == b1 {
            assert(a =~= seq![a[0]] + a1);
            assert(b =~= seq![b[0]] + b1);
        }
    } else if a.len() == 0 && b.len() == 0 {
        assert(a =~= b);
    } else if a.len() > 0 && b.len() > 0 {
        assert(a[0] != b[0]);
    }
}

/// Newest first: no later time comes before an earlier one.
pub open spec fn newest_first(ts: Seq<Seq<char>>) -> bool {
    forall|i: int, j: int| 0 <= i < j < ts.len() ==> !text_lt(#[trigger] ts[i], #[trigger] ts[j])
}

proof fn lemma_first_less_facts(ts: Seq<Seq<char>>, x: Seq<char>)
    ensures
        forall|i: int| 0 <= i < first_less(ts, x) ==> !text_lt(#[trigger] ts[i], x),
        first_less(ts, x) < ts.len() ==> text_lt(ts[first_less(ts, x)], x),
        0 <= first_less(ts, x) <= ts.len(),
    decreases ts.len(),
{
    if ts.len() > 0 {
        lemma_first_less_facts(ts.drop_last(), x);
        assert forall|i: int| 0 <= i < first_less(ts, x) implies !text_lt(#[trigger] ts[i], x) by {
            if i < ts.len() - 1 {
                assert(ts[i] == ts.drop_last()[i]);
            }
        }
    }
}

proof fn lemma_insert_keeps_order(ts: Seq<Seq<char>>, x: Seq<char>)
    requires
        newest_first(ts),
    ensures
        newest_first(ts.insert(first_less(ts, x), x)),
{
    let k = first_less(ts, x);
    lemma_first_less_facts(ts, x);
    let r = ts.insert(k, x);
    assert forall|i: int, j: int| 0 <= i < j < r.len() implies !text_lt(#[trigger] r[i], #[trigger] r[j]) by {
        if j < k {
            assert(r[i] == ts[i] && r[j] == ts[j]);
        } else if j == k {
            assert(r[i] == ts[i] && r[j] == x);
        } else if i == k {
            assert(r[j] == ts[j - 1]);
            let y = ts[j - 1];
            if j - 1 == k {
                lemma_text_lt_asym(y, x);
            } else {
                assert(!text_lt(ts[k], ts[j - 1]));
                lemma_text_lt_total(ts[k], y);
                if text_lt(y, ts[k]) {
                    lemma_text_lt_trans(y, ts[k], x);
                }
                lemma_text_lt_asym(y, x);
            }
        } else if i < k {
            assert(r[i] == ts[i] && r[j] == ts[j - 1]);
        } else {
            assert(r[i] == ts[i - 1] && r[j] == ts[j - 1]);
        }
    }
}

/// Sorting keeps every paper (the same multiset) and puts the newest first.
pub proof fn law_sort_newest_first(ps: Seq<PaperModel>)
    ensures
        newest_first(lasts(sort_desc(ps))),
        sort_desc(ps).to_multiset() == ps.to_multiset(),
        sort_desc(ps).len() == ps.len(),
    decreases ps.len(),
{
    broadcast use vstd::seq_lib::to_multiset_insert, vstd::seq_lib::to_multiset_build, vstd::seq_lib::to_multiset_len;
    if ps.len() > 0 {
        law_sort_newest_first(ps.drop_last());
        let s = sort_desc(ps.drop_last());
        let x = ps.last();
        let k = first_less(lasts(s), x.last_at);
        lemma_first_less_bounds(lasts(s), x.last_at);
        lemma_insert_keeps_order(lasts(s), x.last_at);
        assert(lasts(s.insert(k, x)) =~= lasts(s).insert(k, x.last_at));
        assert(ps =~= ps.drop_last().push(x));
        assert(sort_desc(ps) == s.insert(k, x));
        vstd::seq_lib::to_multiset_insert(s, k, x);
        vstd::seq_lib::to_multiset_build(ps.drop_last(), x);
        assert(s.to_multiset() == ps.drop_last().to_multiset());
    } else {
        assert(sort_desc(ps) =~= ps);
    }
}

/// The library lists its papers newest first, and each group of excerpts
/// gives exactly one paper.
pub proof fn law_library_newest_first(
    notes: Seq<Note>,
    refs: Seq<(i64, Seq<RefModel>)>,
    data: Seq<DataModel>,
)
    ensures
        newest_first(lasts(group_into_papers_s(notes, refs, data))),
        group_into_papers_s(notes, refs, data).len() == groups_s(notes, notes.len() as int).len(),
{
    let gs = groups_s(notes, notes.len() as int);
    law_sort_newest_first(gs.map_values(|g: GroupModel| paper_s(g, notes, refs, data)));
}

} // verus!

verus! {

/// Excerpt `i` is a member of one of the groups.
pub open spec fn placed(gs: Seq<GroupModel>, i: int) -> bool {
    exists|j: int, k: int|
        0 <= j < gs.len() && 0 <= k < gs[j].members.len() && #[trigger] gs[j].members[k] == i
}

/// Grouping places every excerpt exactly where its key says: each member
/// of a group has the group's key, every excerpt is a member of some group,
/// no two groups share a key, and a group keeps its excerpts in the order
/// given.
pub proof fn law_groups_partition(notes: Seq<Note>, n: int)
    requires
        0 <= n <= notes.len(),
    ensures
        forall|j: int, k: int|
            0 <= j < groups_s(notes, n).len() && 0 <= k < groups_s(notes, n)[j].members.len() ==> {
                let m = #[trigger] groups_s(notes, n)[j].members[k];
                0 <= m < n && notes[m].paper_key@ == groups_s(notes, n)[j].key
            },
        forall|i: int| 0 <= i < n ==> #[trigger] placed(groups_s(notes, n), i),
        forall|j1: int, j2: int|
            0 <= j1 < j2 < groups_s(notes, n).len() ==> #[trigger] groups_s(notes, n)[j1].key
                != #[trigger] groups_s(notes, n)[j2].key,
        forall|j: int, k1: int, k2: int|
            0 <= j < groups_s(notes, n).len() && 0 <= k1 < k2 < groups_s(notes, n)[j].members.len()
                ==> #[trigger] groups_s(notes, n)[j].members[k1] < #[trigger] groups_s(
                notes,
                n,
            )[j].members[k2],
    decreases n,
{
    if n > 0 {
        law_groups_partition(notes, n - 1);
        let gs = groups_s(notes, n - 1);
        let g2 = groups_s(notes, n);
        let key = notes[n - 1].paper_key@;
        lemma_group_index_bounds(gs, key);
        match group_index(gs, key) {
            Some(j0) => {
                assert(g2 == gs.update(
                    j0,
                    GroupModel {
                        key: gs[j0].key,
                        source_title: gs[j0].source_title,
                        members: gs[j0].members.push(n - 1),
                    },
                ));
                assert forall|j: int, k: int|
                    0 <= j < g2.len() && 0 <= k < g2[j].members.len() implies {
                        let m = #[trigger] g2[j].members[k];
                        0 <= m < n && notes[m].paper_key@ == g2[j].key
                    } by {
                    if j == j0 && k == gs[j0].members.len() {
                    } else {
                        assert(g2[j].members[k] == gs[j].members[k]);
                    }
                }
                assert forall|i: int| 0 <= i < n implies #[trigger] placed(g2, i) by {
                    if i == n - 1 {
                        assert(g2[j0].members[gs[j0].members.len() as int] == i);
                    } else {
                        assert(placed(gs, i));
                        let (j, k) = choose|j: int, k: int|
                            0 <= j < gs.len() && 0 <= k < gs[j].members.len()
                                && #[trigger] gs[j].members[k] == i;
                        assert(g2[j].members[k] == i);
                    }
                }
                assert forall|j1: int, j2: int| 0 <= j1 < j2 < g2.len() implies #[trigger] g2[j1].key
                    != #[trigger] g2[j2].key by {
                    assert(g2[j1].key == gs[j1].key && g2[j2].key == gs[j2].key);
                }
                assert forall|j: int, k1: int, k2: int|
                    0 <= j < g2.len() && 0 <= k1 < k2 < g2[j].members.len() implies #[trigger] g2[j].members[k1]
                        < #[trigger] g2[j].members[k2] by {
                    if j == j0 && k2 == gs[j0].members.len() {
                        assert(g2[j].members[k1] == gs[j].members[k1]);
                    } else {
                        assert(g2[j].members[k1] == gs[j].members[k1]);
                        assert(g2[j].members[k2] == gs[j].members[k2]);
                    }
                }
            },
            None => {
                let ng = GroupModel {
                    key: key,
                    source_title: raw_title_s(ov(notes[n - 1].source_title)),
                    members: seq![n - 1],
                };
                assert(g2 == gs.push(ng));
                assert forall|j: int, k: int|
                    0 <= j < g2.len() && 0 <= k < g2[j].members.len() implies {
                        let m = #[trigger] g2[j].members[k];
                        0 <= m < n && notes[m].paper_key@ == g2[j].key
                    } by {
                    if j < gs.len() {
                        assert(g2[j] == gs[j]);
                    }
                }
                assert forall|i: int| 0 <= i < n implies #[trigger] placed(g2, i) by {
                    if i == n - 1 {
                        assert(g2[gs.len() as int].members[0] == i);
                    } else {
                        assert(placed(gs, i));
                        let (j, k) = choose|j: int, k: int|
                            0 <= j < gs.len() && 0 <= k < gs[j].members.len()
                                && #[trigger] gs[j].members[k] == i;
                        assert(g2[j] == gs[j]);
                        assert(g2[j].members[k] == i);
                    }
                }
                assert forall|j1: int, j2: int| 0 <= j1 < j2 < g2.len() implies #[trigger] g2[j1].key
                    != #[trigger] g2[j2].key by {
                    assert(g2[j1] == gs[j1]);
                    if j2 < gs.len() {
                        assert(g2[j2] == gs[j2]);
                    }
                }
                assert forall|j: int, k1: int, k2: int|
                    0 <= j < g2.len() && 0 <= k1 < k2 < g2[j].members.len() implies #[trigger] g2[j].members[k1]
                        < #[trigger] g2[j].members[k2] by {
                    if j < gs.len() {
                        assert(g2[j] == gs[j]);
                    }
                }
            },
        }
    }
}

} // verus!
