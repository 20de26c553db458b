//! The records the note library keeps: notes, structured citations, the
//! references of an excerpt, bibliography chunks, and the rows one undoable
//! action takes away.
use vstd::prelude::*;

use crate::text::{chars_of, push_decimal_i64, string_of, trim_str, trim_s};

verus! {

/// The view of an optional string.
pub open spec fn ov(o: Option<String>) -> Option<Seq<char>> {
    match o {
        Some(s) => Some(s@),
        None => None,
    }
}

/// The views of a list of strings.
pub open spec fn sviews(v: Seq<String>) -> Seq<Seq<char>> {
    v.map_values(|s: String| s@)
}

/// A structured citation.
#[derive(Debug, Clone, Default)]
pub struct Citation {
    pub authors: Vec<String>,
    pub title: String,
    pub venue: Option<String>,
    pub year: Option<i64>,
    pub volume: Option<String>,
    pub page: Option<String>,
    pub doi: Option<String>,
}

/// A citation as values.
pub struct CitationModel {
    pub authors: Seq<Seq<char>>,
    pub title: Seq<char>,
    pub venue: Option<Seq<char>>,
    pub year: Option<i64>,
    pub volume: Option<Seq<char>>,
    pub page: Option<Seq<char>>,
    pub doi: Option<Seq<char>>,
}

impl View for Citation {
    type V = CitationModel;

    open spec fn view(&self) -> CitationModel {
        CitationModel {
            authors: sviews(self.authors@),
            title: self.title@,
            venue: ov(self.venue),
            year: self.year,
            volume: ov(self.volume),
            page: ov(self.page),
            doi: ov(self.doi),
        }
    }
}

pub fn copy_string(s: &String) -> (r: String)
    ensures
        r@ == s@,
{
    s.clone()
}

pub fn copy_opt_string(o: &Option<String>) -> (r: Option<String>)
    ensures
        ov(r) == ov(*o),
{
    match o {
        Some(s) => Some(s.clone()),
        None => None,
    }
}

pub fn copy_strings(v: &Vec<String>) -> (r: Vec<String>)
    ensures
        sviews(r@) == sviews(v@),
{
    let mut r: Vec<String> = Vec::new();
    let mut i: usize = 0;
    while i < v.len()
        invariant
            0 <= i <= v.len(),
            sviews(r@) == sviews(v@.take(i as int)),
        decreases v.len() - i,
    {
        let ghost r0 = r@;
        r.push(v[i].clone());
        proof {
            assert(sviews(r@) =~= sviews(r0).push(v@[i as int]@));
            assert(sviews(v@.take(i + 1)) =~= sviews(v@.take(i as int)).push(v@[i as int]@));
        }
        i = i + 1;
    }
    proof {
        assert(v@.take(v.len() as int) =~= v@);
    }
    r
}

impl Citation {
    /// A copy with the same values.
    pub fn duplicate(&self) -> (r: Citation)
        ensures
            r@ == self@,
    {
        Citation {
            authors: copy_strings(&self.authors),
            title: self.title.clone(),
            venue: copy_opt_string(&self.venue),
            year: self.year,
            volume: copy_opt_string(&self.volume),
            page: copy_opt_string(&self.page),
            doi: copy_opt_string(&self.doi),
        }
    }
}

pub fn copy_opt_citation(c: &Option<Citation>) -> (r: Option<Citation>)
    ensures
        opt_cite_view(r) == opt_cite_view(*c),
{
    match c {
        Some(x) => Some(x.duplicate()),
        None => None,
    }
}

pub open spec fn opt_cite_view(c: Option<Citation>) -> Option<CitationModel> {
    match c {
        Some(x) => Some(x@),
        None => None,
    }
}

/// Which paper a citation points to.
#[derive(Debug, Clone, Copy, PartialEq, Eq, Structural)]
pub enum CitationKind {
    /// The paper that a marker in the excerpt cites.
    CitedPaper,
    /// The paper being read.
    CurrentPaper,
    /// No citation.
    NoCitation,
    /// The excerpt has a marker that is not matched to an entry yet; this is
    /// never replaced by the paper being read.
    Unresolved,
    /// Filled in or corrected by hand.
    Manual,
}

pub open spec fn kind_str(k: CitationKind) -> Seq<char> {
    match k {
        CitationKind::CitedPaper => "cited_paper"@,
        CitationKind::CurrentPaper => "current_paper"@,
        CitationKind::NoCitation => "none"@,
        CitationKind::Unresolved => "unresolved"@,
        CitationKind::Manual => "manual"@,
    }
}

pub open spec fn kind_of_str(s: Seq<char>) -> CitationKind {
    if s == "cited_paper"@ {
        CitationKind::CitedPaper
    } else if s == "current_paper"@ {
        CitationKind::CurrentPaper
    } else if s == "unresolved"@ {
        CitationKind::Unresolved
    } else if s == "manual"@ {
        CitationKind::Manual
    } else {
        CitationKind::NoCitation
    }
}

impl CitationKind {
    pub fn as_str(self) -> (r: &'static str)
        ensures
            r@ == kind_str(self),
    {
        match self {
            CitationKind::CitedPaper => "cited_paper",
            CitationKind::CurrentPaper => "current_paper",
            CitationKind::NoCitation => "none",
            CitationKind::Unresolved => "unresolved",
            CitationKind::Manual => "manual",
        }
    }

    /// The kind stored as `s`; anything unknown reads as `None`.
    pub fn parse(s: &str) -> (r: CitationKind)
        ensures
            r == kind_of_str(s@),
    {
        let v = chars_of(s);
        let a = chars_of("cited_paper");
        let b = chars_of("current_paper");
        let c = chars_of("unresolved");
        let d = chars_of("manual");
        if crate::text::eq_chars(&v, &a) {
            CitationKind::CitedPaper
        } else if crate::text::eq_chars(&v, &b) {
            CitationKind::CurrentPaper
        } else if crate::text::eq_chars(&v, &c) {
            CitationKind::Unresolved
        } else if crate::text::eq_chars(&v, &d) {
            CitationKind::Manual
        } else {
            CitationKind::NoCitation
        }
    }
}

/// Writing a kind out and reading it back gives the same kind.
pub proof fn law_kind_round_trip(k: CitationKind)
    ensures
        kind_of_str(kind_str(k)) == k,
{
    reveal_strlit("cited_paper");
    reveal_strlit("current_paper");
    reveal_strlit("none");
    reveal_strlit("unresolved");
    reveal_strlit("manual");
    assert("cited_paper"@.len() == 11);
    assert("current_paper"@.len() == 13);
    assert("none"@.len() == 4);
    assert("unresolved"@.len() == 10);
    assert("manual"@.len() == 6);
}

/// A captured excerpt.
#[derive(Debug, Clone)]
pub struct Note {
    pub id: i64,
    pub content: String,
    pub source_title: Option<String>,
    pub source_type: Option<String>,
    pub citation: Option<Citation>,
    pub citation_kind: CitationKind,
    pub created_at: String,
    /// Whether the content has a numbered citation marker.
    pub has_marker: bool,
    /// Key of the paper the excerpt belongs to.
    pub paper_key: String,
    /// The bibliography chunk bound to the excerpt.
    pub bib_chunk_id: Option<i64>,
}

/// A note as values.
pub struct NoteModel {
    pub id: i64,
    pub content: Seq<char>,
    pub source_title: Option<Seq<char>>,
    pub source_type: Option<Seq<char>>,
    pub citation: Option<CitationModel>,
    pub citation_kind: CitationKind,
    pub created_at: Seq<char>,
    pub has_marker: bool,
    pub paper_key: Seq<char>,
    pub bib_chunk_id: Option<i64>,
}

impl View for Note {
    type V = NoteModel;

    open spec fn view(&self) -> NoteModel {
        NoteModel {
            id: self.id,
            content: self.content@,
            source_title: ov(self.source_title),
            source_type: ov(self.source_type),
            citation: opt_cite_view(self.citation),
            citation_kind: self.citation_kind,
            created_at: self.created_at@,
            has_marker: self.has_marker,
            paper_key: self.paper_key@,
            bib_chunk_id: self.bib_chunk_id,
        }
    }
}

pub open spec fn notes_view(v: Seq<Note>) -> Seq<NoteModel> {
    v.map_values(|n: Note| n@)
}

/// A copy with the same values.
pub fn copy_note(n: &Note) -> (r: Note)
    ensures
        r@ == n@,
{
    Note {
        id: n.id,
        content: copy_string(&n.content),
        source_title: copy_opt_string(&n.source_title),
        source_type: copy_opt_string(&n.source_type),
        citation: copy_opt_citation(&n.citation),
        citation_kind: n.citation_kind,
        created_at: copy_string(&n.created_at),
        has_marker: n.has_marker,
        paper_key: copy_string(&n.paper_key),
        bib_chunk_id: n.bib_chunk_id,
    }
}

/// One pasted bibliography of a paper.
#[derive(Debug, Clone)]
pub struct BibChunk {
    pub id: i64,
    pub paper_key: String,
    pub raw_text: String,
    pub label: String,
    pub created_at: String,
    pub updated_at: String,
}

/// A marker of an excerpt and the paper it points to.
#[derive(Debug, Clone)]
pub struct ReferenceItem {
    /// The marker as written, such as `②` or `[2]`.
    pub marker: String,
    pub kind: CitationKind,
    pub citation: Option<Citation>,
}

pub fn copy_reference(r: &ReferenceItem) -> (c: ReferenceItem)
    ensures
        c.marker@ == r.marker@,
        c.kind == r.kind,
        opt_cite_view(c.citation) == opt_cite_view(r.citation),
{
    ReferenceItem {
        marker: r.marker.clone(),
        kind: r.kind,
        citation: copy_opt_citation(&r.citation),
    }
}

/// The rows one undoable action took away, kept as they were.
#[derive(Debug, Clone, Default)]
pub struct DeletedRows {
    pub notes: Vec<Note>,
    /// (note_id, position, added_at)
    pub basket: Vec<(i64, i64, String)>,
    /// Chunks to write back.
    pub bib_chunks: Vec<BibChunk>,
    /// Chunks to delete on undo (the one just added).
    pub delete_chunk_ids: Vec<i64>,
    /// note_id → bib_chunk_id
    pub note_binds: Vec<(i64, Option<i64>)>,
    /// (key, citation_json, updated_at)
    pub paper_current: Vec<(String, Option<String>, String)>,
    /// (paper_key, bib_chunk_id, ref_num, citation_json, updated_at)
    pub overrides: Vec<(String, i64, i64, String, String)>,
}

impl DeletedRows {
    pub open spec fn empty_s(&self) -> bool {
        &&& self.notes@.len() == 0
        &&& self.basket@.len() == 0
        &&& self.bib_chunks@.len() == 0
        &&& self.delete_chunk_ids@.len() == 0
        &&& self.note_binds@.len() == 0
        &&& self.paper_current@.len() == 0
        &&& self.overrides@.len() == 0
    }

    /// Nothing was taken away.
    pub fn is_empty(&self) -> (r: bool)
        ensures
            r == self.empty_s(),
    {
        self.notes.len() == 0 && self.basket.len() == 0 && self.bib_chunks.len() == 0
            && self.delete_chunk_ids.len() == 0 && self.note_binds.len() == 0
            && self.paper_current.len() == 0 && self.overrides.len() == 0
    }
}

/// `ref_num` of a correction of the paper being read itself.
pub const CURRENT_PAPER_REF: i64 = 0;

/// `bib_chunk_id` of a correction of the paper being read itself.
pub const CURRENT_PAPER_CHUNK: i64 = 0;

/// Paper key of a window title: the title normalised for matching, or the
/// trimmed title when normalising leaves nothing; none for a blank title.
pub open spec fn paper_key_s(source_title: Option<Seq<char>>) -> Option<Seq<char>> {
    match source_title {
        None => None,
        Some(t) => {
            let tt = trim_s(t);
            if tt.len() == 0 {
                None
            } else {
                let key = crate::source::normalize_for_match_s(tt);
                if key.len() == 0 {
                    Some(tt)
                } else {
                    Some(key)
                }
            }
        },
    }
}

pub fn paper_key_of(source_title: Option<&str>) -> (r: Option<String>)
    ensures
        ov(r) == paper_key_s(match source_title {
            Some(t) => Some(t@),
            None => None,
        }),
{
    let t = match source_title {
        Some(t) => t,
        None => {
            return None;
        },
    };
    let tt = trim_str(t);
    if tt.len() == 0 {
        return None;
    }
    let ts = string_of(&tt);
    let key = crate::source::normalize_for_match(ts.as_str());
    let kv = chars_of(key.as_str());
    if kv.len() == 0 {
        Some(ts)
    } else {
        Some(key)
    }
}

/// Key of a note without a title: it forms a paper of its own.
pub open spec fn unknown_key_s(note_id: i64) -> Seq<char> {
    seq!['\0'] + "unknown:"@ + crate::text::decimal_int(note_id as int)
}

pub fn unknown_key(note_id: i64) -> (r: String)
    ensures
        r@ == unknown_key_s(note_id),
{
    let mut v: Vec<char> = Vec::new();
    v.push('\0');
    crate::text::append_str(&mut v, "unknown:");
    push_decimal_i64(&mut v, note_id);
    string_of(&v)
}

/// Notes without a title never share a paper: different notes get
/// different keys.
pub proof fn law_unknown_keys_distinct(a: i64, b: i64)
    requires
        a != b,
    ensures
        unknown_key_s(a) != unknown_key_s(b),
{
    reveal_strlit("unknown:");
    if unknown_key_s(a) == unknown_key_s(b) {
        assert(unknown_key_s(a).skip(9) =~= crate::text::decimal_int(a as int));
        assert(unknown_key_s(b).skip(9) =~= crate::text::decimal_int(b as int));
        crate::text::lemma_decimal_int_injective(a as int, b as int);
    }
}

/// A title gets a paper key exactly when it is not blank, and that key is
/// never empty; two titles that clean up to the same text (decorations and
/// application suffixes stripped) share their key whenever it is not the
/// fallback to the trimmed title.
pub proof fn law_paper_key_shape(a: Option<Seq<char>>, b: Option<Seq<char>>)
    ensures
        paper_key_s(a) is None <==> (a is None || trim_s(a.unwrap()).len() == 0),
        paper_key_s(a) matches Some(k) ==> k.len() > 0,
        a is Some && b is Some && crate::source::strip_title_suffix_s(trim_s(a.unwrap()))
            == crate::source::strip_title_suffix_s(trim_s(b.unwrap())) && crate::source::normalize_for_match_s(
            trim_s(a.unwrap()),
        ).len() > 0 && trim_s(a.unwrap()).len() > 0 && trim_s(b.unwrap()).len() > 0
            ==> paper_key_s(a) == paper_key_s(b),
{
}

} // verus!
