//! Bibliographies pasted for a paper: a paper may have several; pasting
//! again adds one and never overwrites.
use vstd::prelude::*;

use crate::citation::{
    distinct_nums, distinct_numbers, markers_detached_from_text, reattach_detached_markers,
    reattach_s, detached_s, scan_markers, scan_markers_s,
};
use crate::source::{normalize_for_match, normalize_for_match_s};
use crate::store::{copy_string, ov, BibChunk, DeletedRows};
use crate::text::{
    chars_of, decimal, eq_chars, push_decimal, starts_with_s, starts_with_str,
    string_of, trim, trim_s,
};

verus! {

/// The paper key of the title a bibliography is filed under.
pub open spec fn key_of_s(title: Seq<char>) -> Result<Seq<char>, Seq<char>> {
    let t = trim_s(title);
    if t.len() == 0 {
        Err("无法确定所属文章"@)
    } else if normalize_for_match_s(t).len() == 0 {
        Ok(t)
    } else {
        Ok(normalize_for_match_s(t))
    }
}

pub fn key_of(title: &str) -> (r: Result<String, String>)
    ensures
        crate::styles::result_view(r) == key_of_s(title@),
{
    let t = trim(&chars_of(title));
    if t.len() == 0 {
        return Err(string_of(&chars_of("无法确定所属文章")));
    }
    let ts = string_of(&t);
    let key = normalize_for_match(ts.as_str());
    if chars_of(key.as_str()).len() == 0 {
        Ok(ts)
    } else {
        Ok(key)
    }
}

/// Pasted text as kept: trimmed, with detached markers put back on their
/// entries when that can be done.
pub open spec fn normalize_bib_text_s(text: Seq<char>) -> Seq<char> {
    match reattach_s(trim_s(text)) {
        Some(x) => x,
        None => trim_s(text),
    }
}

pub fn normalize_bib_text(text: &str) -> (r: String)
    ensures
        r@ == normalize_bib_text_s(text@),
{
    let t = string_of(&trim(&chars_of(text)));
    match reattach_detached_markers(t.as_str()) {
        Some(x) => x,
        None => t,
    }
}

/// What a pasted bibliography shows: its distinct marker numbers in order
/// (read after repair), whether its markers are cut off from their
/// entries, and the repaired text when the markers could be put back.
#[derive(Debug)]
pub struct BibInspect {
    pub markers: Vec<u32>,
    pub detached: bool,
    pub repaired: Option<String>,
}

pub open spec fn inspect_source(text: Seq<char>) -> Seq<char> {
    match reattach_s(text) {
        Some(x) => x,
        None => text,
    }
}

pub fn inspect(text: &str) -> (r: BibInspect)
    ensures
        r.markers@ == distinct_nums(scan_markers_s(inspect_source(text@))),
        r.detached == (reattach_s(text@) is None && detached_s(text@)),
        ov(r.repaired) == reattach_s(text@),
{
    let repaired = reattach_detached_markers(text);
    let ms = match &repaired {
        Some(x) => scan_markers(x.as_str()),
        None => scan_markers(text),
    };
    let markers = distinct_numbers(&ms);
    let detached = repaired.is_none() && markers_detached_from_text(text);
    BibInspect { markers, detached, repaired }
}

/// Why a pasted text cannot be kept as a bibliography: blank, or without
/// any marker.
pub open spec fn require_markers_s(text: Seq<char>) -> Result<(), Seq<char>> {
    if trim_s(text).len() == 0 {
        Err("还没有内容，请先把参考文献粘进来"@)
    } else if distinct_nums(scan_markers_s(inspect_source(text))).len() == 0 {
        Err("还没认出任何标记"@)
    } else {
        Ok(())
    }
}

pub fn require_markers(text: &str) -> (r: Result<(), String>)
    ensures
        match r {
            Ok(()) => require_markers_s(text@) is Ok,
            Err(e) => require_markers_s(text@) == Err::<(), Seq<char>>(e@),
        },
{
    if trim(&chars_of(text)).len() == 0 {
        return Err(string_of(&chars_of("还没有内容，请先把参考文献粘进来")));
    }
    if inspect(text).markers.len() == 0 {
        return Err(string_of(&chars_of("还没认出任何标记")));
    }
    Ok(())
}

/// How many labels start with `prefix`.
pub open spec fn count_prefixed(labels: Seq<Seq<char>>, prefix: Seq<char>) -> nat
    decreases labels.len(),
{
    if labels.len() == 0 {
        0
    } else {
        count_prefixed(labels.drop_last(), prefix) + if starts_with_s(labels.last(), prefix) {
            1nat
        } else {
            0nat
        }
    }
}

/// The label of a new bibliography of a paper: by scope, not by what it
/// holds. For the whole paper `文末文献表`, then `文末文献表 2`, ...; for one
/// page `当页脚注 1`, `当页脚注 2`, ...
pub open spec fn next_label_s(labels: Seq<Seq<char>>, scope: Seq<char>) -> Seq<char> {
    if scope == "all"@ {
        let n = count_prefixed(labels, "文末文献表"@);
        if n == 0 {
            "文末文献表"@
        } else {
            "文末文献表 "@ + decimal(n + 1)
        }
    } else {
        "当页脚注 "@ + decimal(count_prefixed(labels, "当页脚注"@) + 1)
    }
}

fn count_prefixed_exec(labels: &Vec<String>, prefix: &str) -> (r: u64)
    requires
        labels.len() < u64::MAX,
    ensures
        r as nat == count_prefixed(crate::store::sviews(labels@), prefix@),
        r <= labels.len(),
{
    let ghost lv = crate::store::sviews(labels@);
    let mut n: u64 = 0;
    let mut i: usize = 0;
    while i < labels.len()
        invariant
            0 <= i <= labels.len(),
            labels.len() < u64::MAX,
            lv == crate::store::sviews(labels@),
            lv.len() == labels.len(),
            n as nat == count_prefixed(lv.take(i as int), prefix@),
            n <= i,
        decreases labels.len() - i,
    {
        proof {
            assert(lv.take(i + 1).drop_last() =~= lv.take(i as int));
            assert(lv.take(i + 1).last() == labels@[i as int]@);
        }
        if starts_with_str(&chars_of(labels[i].as_str()), prefix) {
            n = n + 1;
        }
        i = i + 1;
    }
    proof {
        assert(lv.take(labels.len() as int) =~= lv);
    }
    n
}

/// The label of a new bibliography (see `next_label_s`), given the labels
/// the paper's bibliographies have.
pub fn next_label(labels: &Vec<String>, scope: &str) -> (r: String)
    requires
        labels.len() < u64::MAX,
    ensures
        r@ == next_label_s(crate::store::sviews(labels@), scope@),
{
    if eq_chars(&chars_of(scope), &chars_of("all")) {
        let n = count_prefixed_exec(labels, "文末文献表");
        if n == 0 {
            return string_of(&chars_of("文末文献表"));
        }
        let mut out = chars_of("文末文献表 ");
        push_decimal(&mut out, n + 1);
        return string_of(&out);
    }
    let n = count_prefixed_exec(labels, "当页脚注");
    let mut out = chars_of("当页脚注 ");
    push_decimal(&mut out, n + 1);
    string_of(&out)
}

/// The scope asked for: `all` or `current`; anything else is `current`.
pub open spec fn scope_s(scope: Seq<char>) -> Seq<char> {
    if scope == "all"@ {
        "all"@
    } else {
        "current"@
    }
}

pub fn normalize_scope(scope: &str) -> (r: String)
    ensures
        r@ == scope_s(scope@),
{
    if eq_chars(&chars_of(scope), &chars_of("all")) {
        string_of(&chars_of("all"))
    } else {
        string_of(&chars_of("current"))
    }
}

/// What adding a bibliography needs once checked: the paper key, the text
/// to keep and the scope.
#[derive(Debug)]
pub struct CapturePlan {
    pub key: String,
    pub text: String,
    pub scope: String,
}

/// The checks before a bibliography is added: the title names a paper, the
/// text has markers, and the excerpt (`note_paper`, its paper key, `None`
/// when it does not exist) belongs to that paper.
pub open spec fn capture_plan_s(
    title: Seq<char>,
    text: Seq<char>,
    scope: Seq<char>,
    note_paper: Option<Seq<char>>,
) -> Result<(Seq<char>, Seq<char>, Seq<char>), Seq<char>> {
    match key_of_s(title) {
        Err(e) => Err(e),
        Ok(key) => {
            let t = normalize_bib_text_s(text);
            match require_markers_s(t) {
                Err(e) => Err(e),
                Ok(()) => match note_paper {
                    None => Err("摘录不存在"@),
                    Some(p) => if p != key {
                        Err("摘录不属于这篇文章"@)
                    } else {
                        Ok((key, t, scope_s(scope)))
                    },
                },
            }
        },
    }
}

pub fn capture_plan(title: &str, text: &str, scope: &str, note_paper: Option<String>) -> (r: Result<
    CapturePlan,
    String,
>)
    ensures
        match r {
            Ok(p) => capture_plan_s(title@, text@, scope@, ov(note_paper)) == Ok::<
                (Seq<char>, Seq<char>, Seq<char>),
                Seq<char>,
            >((p.key@, p.text@, p.scope@)),
            Err(e) => capture_plan_s(title@, text@, scope@, ov(note_paper)) == Err::<
                (Seq<char>, Seq<char>, Seq<char>),
                Seq<char>,
            >(e@),
        },
{
    let key = match key_of(title) {
        Ok(k) => k,
        Err(e) => {
            return Err(e);
        },
    };
    let t = normalize_bib_text(text);
    match require_markers(t.as_str()) {
        Ok(()) => {},
        Err(e) => {
            return Err(e);
        },
    }
    match note_paper {
        None => Err(string_of(&chars_of("摘录不存在"))),
        Some(p) => {
            if !eq_chars(&chars_of(p.as_str()), &chars_of(key.as_str())) {
                Err(string_of(&chars_of("摘录不属于这篇文章")))
            } else {
                Ok(CapturePlan { key, text: t, scope: normalize_scope(scope) })
            }
        },
    }
}

/// What undoing an added bibliography needs: delete the new chunk and put
/// back the excerpts' previous bindings.
pub fn capture_undo_rows(chunk_id: i64, note_binds: Vec<(i64, Option<i64>)>) -> (r: DeletedRows)
    ensures
        r.delete_chunk_ids@ == seq![chunk_id],
        r.note_binds@ == note_binds@,
        r.notes@.len() == 0,
        r.basket@.len() == 0,
        r.bib_chunks@.len() == 0,
        r.paper_current@.len() == 0,
        r.overrides@.len() == 0,
{
    let mut ids: Vec<i64> = Vec::new();
    ids.push(chunk_id);
    proof {
        assert(ids@ =~= seq![chunk_id]);
    }
    DeletedRows {
        notes: Vec::new(),
        basket: Vec::new(),
        bib_chunks: Vec::new(),
        delete_chunk_ids: ids,
        note_binds,
        paper_current: Vec::new(),
        overrides: Vec::new(),
    }
}

/// The id of a bibliography just added.
#[derive(Debug)]
pub struct CaptureResult {
    pub chunk_id: i64,
}

/// One bibliography as the editor shows it.
#[derive(Debug)]
pub struct BibText {
    pub text: String,
    pub updated_at: String,
    pub detached: bool,
    pub label: String,
}

pub fn bib_text_of(c: &BibChunk) -> (r: BibText)
    ensures
        r.text@ == c.raw_text@,
        r.updated_at@ == c.updated_at@,
        r.label@ == c.label@,
        r.detached == detached_s(c.raw_text@),
{
    BibText {
        detached: markers_detached_from_text(c.raw_text.as_str()),
        text: copy_string(&c.raw_text),
        updated_at: copy_string(&c.updated_at),
        label: copy_string(&c.label),
    }
}

/// Two bibliographies added one after the other to the same paper, for
/// the same scope, get different labels: the new label counts among the
/// paper's labels, and the next one is numbered one higher.
pub proof fn law_labels_stay_distinct(labels: Seq<Seq<char>>, scope: Seq<char>)
    ensures
        next_label_s(labels.push(next_label_s(labels, scope)), scope) != next_label_s(labels, scope),
{
    reveal_strlit("文末文献表");
    reveal_strlit("文末文献表 ");
    reveal_strlit("当页脚注");
    reveal_strlit("当页脚注 ");
    let l1 = next_label_s(labels, scope);
    let more = labels.push(l1);
    assert(more.drop_last() =~= labels);
    assert(more.last() == l1);
    if scope == "all"@ {
        let p = "文末文献表"@;
        let n = count_prefixed(labels, p);
        assert(l1.subrange(0, p.len() as int) =~= p);
        assert(starts_with_s(l1, p));
        assert(count_prefixed(more, p) == n + 1);
        let l2 = next_label_s(more, scope);
        if n > 0 {
            assert(l1.skip(6) =~= decimal(n + 1));
            assert(l2.skip(6) =~= decimal(n + 2));
            if l1 == l2 {
                crate::text::lemma_decimal_injective(n + 1, n + 2);
            }
        } else {
            assert(l1.len() == 5);
            assert(l2.len() > 5);
        }
    } else {
        let p = "当页脚注"@;
        let n = count_prefixed(labels, p);
        assert(l1.subrange(0, p.len() as int) =~= p);
        assert(starts_with_s(l1, p));
        assert(count_prefixed(more, p) == n + 1);
        let l2 = next_label_s(more, scope);
        assert(l1.skip(5) =~= decimal(n + 1));
        assert(l2.skip(5) =~= decimal(n + 2));
        if l1 == l2 {
            crate::text::lemma_decimal_injective(n + 1, n + 2);
        }
    }
}

} // verus!
