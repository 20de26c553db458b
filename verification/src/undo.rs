//! Undoing the last deletion: one slot that remembers which rows the last
//! undoable action took away and what to say when they come back.
use vstd::prelude::*;

use crate::store::DeletedRows;
use crate::text::{append_str, chars_of, decimal, push_decimal, string_of};

verus! {

/// The action waiting to be undone.
#[derive(Debug)]
pub struct Pending {
    /// What to tell the user once the rows are back.
    pub label: String,
    pub rows: DeletedRows,
}

/// The undo slot: the most recent undoable action, if any.
#[derive(Debug)]
pub struct UndoState {
    slot: Option<Pending>,
}

impl View for UndoState {
    type V = Option<(Seq<char>, DeletedRows)>;

    closed spec fn view(&self) -> Option<(Seq<char>, DeletedRows)> {
        match self.slot {
            Some(p) => Some((p.label@, p.rows)),
            None => None,
        }
    }
}

/// The slot after recording `rows`: cleared when nothing was taken away.
pub open spec fn record_s(label: Seq<char>, rows: DeletedRows) -> Option<(Seq<char>, DeletedRows)> {
    if rows.empty_s() {
        None
    } else {
        Some((label, rows))
    }
}

pub open spec fn pending_view(p: Option<Pending>) -> Option<(Seq<char>, DeletedRows)> {
    match p {
        Some(x) => Some((x.label@, x.rows)),
        None => None,
    }
}

impl UndoState {
    /// An empty slot.
    pub fn new() -> (r: UndoState)
        ensures
            r@ is None,
    {
        UndoState { slot: None }
    }

    /// Remembers an undoable action in place of the previous one; when it
    /// took nothing away, the slot is cleared instead, so that undo never
    /// reaches back to an older action.
    pub fn record(&mut self, label: &str, rows: DeletedRows)
        ensures
            final(self)@ == record_s(label@, rows),
    {
        if rows.is_empty() {
            self.slot = None;
        } else {
            self.slot = Some(Pending { label: string_of(&chars_of(label)), rows });
        }
    }

    /// Forgets the remembered action.
    pub fn clear(&mut self)
        ensures
            final(self)@ is None,
    {
        self.slot = None;
    }

    /// Takes the remembered action out of the slot, leaving it empty.
    pub fn take(&mut self) -> (r: Option<Pending>)
        ensures
            pending_view(r) == old(self)@,
            final(self)@ is None,
    {
        let r = self.slot.take();
        r
    }

    /// Puts an action back into the slot.
    pub fn put_back(&mut self, pending: Pending)
        ensures
            final(self)@ == Some((pending.label@, pending.rows)),
    {
        self.slot = Some(pending);
    }

    /// Starts undoing: the remembered action, taken out of the slot, or the
    /// message that there is nothing to undo.
    pub fn begin_undo(&mut self) -> (r: Result<Pending, String>)
        ensures
            match r {
                Ok(p) => old(self)@ == Some((p.label@, p.rows)),
                Err(e) => old(self)@ is None && e@ == "没有可撤销的操作"@,
            },
            final(self)@ is None,
    {
        match self.take() {
            Some(p) => Ok(p),
            None => Err(string_of(&chars_of("没有可撤销的操作"))),
        }
    }

    /// Ends an undo once the rows were written back (`restored`): on
    /// success the label to show; on failure the error, with the action put
    /// back so that it can be tried again.
    pub fn finish_undo(&mut self, pending: Pending, restored: Result<(), String>) -> (r: Result<
        String,
        String,
    >)
        ensures
            match restored {
                Ok(()) => r matches Ok(l) && l@ == pending.label@ && final(self)@ == old(self)@,
                Err(e) => r matches Err(x) && x@ == e@ && final(self)@ == Some(
                    (pending.label@, pending.rows),
                ),
            },
    {
        match restored {
            Ok(()) => Ok(pending.label),
            Err(e) => {
                self.put_back(pending);
                Err(e)
            },
        }
    }
}

/// What a take gives back after a recording: exactly the recorded label
/// and rows, or nothing when no rows were taken away; whatever the slot held
/// before plays no part.
pub proof fn law_take_returns_recorded(label: Seq<char>, rows: DeletedRows)
    ensures
        !rows.empty_s() ==> record_s(label, rows) == Some((label, rows)),
        rows.empty_s() ==> record_s(label, rows) is None,
{
}

pub open spec fn label_for_notes_s(n: nat) -> Seq<char> {
    if n == 0 {
        "已撤销"@
    } else if n == 1 {
        "已恢复这条摘录"@
    } else {
        "已恢复 "@ + decimal(n) + " 条摘录"@
    }
}

/// "Restored N excerpts" in words that read naturally for 0, 1 and more.
pub fn label_for_notes(n: usize) -> (r: String)
    ensures
        r@ == label_for_notes_s(n as nat),
{
    if n == 0 {
        string_of(&chars_of("已撤销"))
    } else if n == 1 {
        string_of(&chars_of("已恢复这条摘录"))
    } else {
        let mut out = chars_of("已恢复 ");
        push_decimal(&mut out, n as u64);
        append_str(&mut out, " 条摘录");
        string_of(&out)
    }
}

pub open spec fn label_for_paper_s(n: nat) -> Seq<char> {
    if n <= 1 {
        "已恢复这篇文章"@
    } else {
        "已恢复这篇文章（"@ + decimal(n) + " 条摘录）"@
    }
}

/// What undoing the deletion of a paper with `n` excerpts says.
pub fn label_for_paper(n: usize) -> (r: String)
    ensures
        r@ == label_for_paper_s(n as nat),
{
    if n <= 1 {
        string_of(&chars_of("已恢复这篇文章"))
    } else {
        let mut out = chars_of("已恢复这篇文章（");
        push_decimal(&mut out, n as u64);
        append_str(&mut out, " 条摘录）");
        string_of(&out)
    }
}

} // verus!
