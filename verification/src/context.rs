//! The read-only snapshot of editor state that one expansion call sees:
//! the active document, the primary selection of the active view, and
//! the working directory of the process, all as plain values.

use vstd::prelude::*;

verus! {

/// The active document: an optional file path and the full text buffer.
pub struct Document {
    /// Full path of the backing file; `None` for a scratch buffer.
    pub path: Option<String>,
    /// The buffer content.
    pub text: String,
}

/// The primary selection of the active view. `anchor` and `head` are
/// character positions into the document text; the selection may run in
/// either direction, and `anchor == head` is a collapsed selection.
pub struct Selection {
    pub anchor: usize,
    pub head: usize,
}

impl Selection {
    /// The lower end of the selected range.
    pub open spec fn low(self) -> int {
        if self.anchor <= self.head {
            self.anchor as int
        } else {
            self.head as int
        }
    }

    /// The upper end of the selected range.
    pub open spec fn high(self) -> int {
        if self.anchor <= self.head {
            self.head as int
        } else {
            self.anchor as int
        }
    }

    /// The cursor of the selection: its moving end.
    pub open spec fn cursor(self) -> int {
        self.head as int
    }
}

/// A context snapshot, borrowed for the duration of one expansion call
/// and never mutated by it.
pub struct Context {
    /// The active document.
    pub doc: Document,
    /// The primary selection of the active view.
    pub selection: Selection,
    /// The working directory of the process; `None` when it cannot be
    /// determined.
    pub working_dir: Option<String>,
}

impl Context {
    /// A valid snapshot: the selection lies within the document text,
    /// and the text leaves room for one more position in `usize`.
    pub open spec fn wf(self) -> bool {
        &&& self.selection.anchor <= self.doc.text@.len()
        &&& self.selection.head <= self.doc.text@.len()
        &&& self.doc.text@.len() < usize::MAX
    }
}

} // verus!
