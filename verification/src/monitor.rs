//! The clipboard watch, one poll at a time: what to do with what the
//! clipboard and the foreground window show. Nothing waits on a language
//! model here.
use vstd::prelude::*;

use crate::store::{copy_opt_string, copy_string, ov};
use crate::text::{chars_of, eq_chars};

verus! {

/// What the watch remembers between polls.
#[derive(Debug)]
pub struct Watch {
    /// The clipboard text last seen; the same text is not taken twice.
    pub last_content: String,
    /// The last window title that was not one of the application's own.
    pub last_title: Option<String>,
}

/// What a poll asks the application to do.
#[derive(Debug)]
pub enum WatchAction {
    /// Nothing to take.
    Skip,
    /// The bibliography paste panel is open: hand the text to it instead of
    /// storing an excerpt.
    BibPaste(String),
    /// Store the text as an excerpt read in the window with this title.
    Save { content: String, source_title: Option<String> },
}

pub enum ActionModel {
    Skip,
    BibPaste(Seq<char>),
    Save(Seq<char>, Option<Seq<char>>),
}

impl View for WatchAction {
    type V = ActionModel;

    open spec fn view(&self) -> ActionModel {
        match self {
            WatchAction::Skip => ActionModel::Skip,
            WatchAction::BibPaste(c) => ActionModel::BibPaste(c@),
            WatchAction::Save { content, source_title } => ActionModel::Save(
                content@,
                ov(*source_title),
            ),
        }
    }
}

impl Watch {
    /// A watch seeded with what the clipboard holds at start, so that old
    /// text is not taken as a new copy.
    pub fn new(initial: Option<String>) -> (r: Watch)
        ensures
            r.last_content@ == (match ov(initial) {
                Some(s) => s,
                None => seq![],
            }),
            r.last_title is None,
    {
        Watch {
            last_content: match initial {
                Some(s) => s,
                None => String::new(),
            },
            last_title: None,
        }
    }
}

/// One poll. `title` is the foreground window's title (`None` when it is
/// one of the application's own windows or unknown); `content` is the
/// clipboard text (`None` when it cannot be read); `self_write` is the
/// text the application itself last put on the clipboard, if not yet seen.
/// Empty text and the text seen last are skipped; the application's own
/// text is skipped once and forgotten; otherwise the text is taken, for
/// the paste panel when it is open, else as an excerpt under the last
/// outside window title.
pub fn poll(
    w: &mut Watch,
    title: Option<String>,
    content: Option<String>,
    self_write: &mut Option<String>,
    bib_paste_open: bool,
) -> (r: WatchAction)
    ensures
        ov(final(w).last_title) == (match ov(title) {
            Some(t) => Some(t),
            None => ov(old(w).last_title),
        }),
        match ov(content) {
            None => r@ is Skip && final(w).last_content@ == old(w).last_content@ && ov(*final(self_write))
                == ov(*old(self_write)),
            Some(c) => if c.len() == 0 || c == old(w).last_content@ {
                r@ is Skip && final(w).last_content@ == old(w).last_content@ && ov(*final(self_write))
                    == ov(*old(self_write))
            } else if ov(*old(self_write)) == Some(c) {
                r@ is Skip && final(w).last_content@ == c && *final(self_write) is None
            } else {
                &&& final(w).last_content@ == c
                &&& ov(*final(self_write)) == ov(*old(self_write))
                &&& if bib_paste_open {
                    r@ == ActionModel::BibPaste(c)
                } else {
                    r@ == ActionModel::Save(c, ov(final(w).last_title))
                }
            },
        },
{
    match title {
        Some(t) => {
            w.last_title = Some(t);
        },
        None => {},
    }
    let c = match content {
        Some(c) => c,
        None => {
            return WatchAction::Skip;
        },
    };
    let cv = chars_of(c.as_str());
    if cv.len() == 0 || eq_chars(&cv, &chars_of(w.last_content.as_str())) {
        return WatchAction::Skip;
    }
    let own = match self_write {
        Some(s) => eq_chars(&chars_of(s.as_str()), &cv),
        None => false,
    };
    if own {
        *self_write = None;
        w.last_content = c;
        return WatchAction::Skip;
    }
    w.last_content = copy_string(&c);
    if bib_paste_open {
        return WatchAction::BibPaste(c);
    }
    WatchAction::Save { content: c, source_title: copy_opt_string(&w.last_title) }
}

/// Whether a foreground window belongs to this application: its process is
/// ours (an unknown own process id, `0`, matches nothing).
pub fn is_own_window(own_pid: u32, window_pid: u32) -> (r: bool)
    ensures
        r == (own_pid != 0 && window_pid == own_pid),
{
    own_pid != 0 && window_pid == own_pid
}

} // verus!
