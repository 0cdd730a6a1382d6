//! The document-editing core of the workspace: the main document's text, the
//! caret, the selection and the undo history, and how editor actions, undo
//! and redo change them.

use crate::editor::state::{ActionView, EditorAction};
use crate::editor::undo::{EntryView, UndoEntry, UndoHistory, UndoManager};
use crate::text::{
    bytes_of, lemma_boundary_concat, lemma_boundary_in_suffix, lemma_encode_concat, lemma_split3,
    span_ok, text_len,
};
use std::ops::Range;
use vstd::prelude::*;
use vstd::string::StringExecFns;
use vstd::utf8::{decode_utf8, encode_utf8, valid_utf8};

verus! {

broadcast use vstd::utf8::group_utf8_lib;

// ---------------------------------------------------------------------------
// Byte-level edits
// ---------------------------------------------------------------------------

/// `b` with the bytes of `range` replaced by `with`.
pub open spec fn replaced(b: Seq<u8>, range: Range<usize>, with: Seq<u8>) -> Seq<u8> {
    b.subrange(0, range.start as int) + with + b.subrange(range.end as int, b.len() as int)
}

/// The text `text` with the bytes of `range` replaced by `with`, and the text
/// that was replaced.
fn replace_range(text: &str, range: &Range<usize>, with: &str) -> (r: (String, String))
    requires
        span_ok(bytes_of(text), range.start as int, range.end as int),
    ensures
        encode_utf8(r.0@) == replaced(bytes_of(text), *range, bytes_of(with)),
        encode_utf8(r.1@) == bytes_of(text).subrange(range.start as int, range.end as int),
{
    let ghost b = bytes_of(text);
    proof {
        vstd::utf8::encode_utf8_valid_utf8(text@);
        lemma_boundary_in_suffix(b, range.start as int, range.end as int);
    }
    let (pre, rest) = text.split_at(range.start);
    let (mid, post) = rest.split_at(range.end - range.start);
    let mut out = pre.to_owned();
    out.append(with);
    out.append(post);
    proof {
        lemma_encode_concat(pre@, with@);
        lemma_encode_concat(pre@ + with@, post@);
        assert(bytes_of(post) =~= b.subrange(range.end as int, b.len() as int));
        assert(bytes_of(mid) =~= b.subrange(range.start as int, range.end as int));
    }
    (out, mid.to_owned())
}

// ---------------------------------------------------------------------------
// The editing state
// ---------------------------------------------------------------------------

/// The mathematical state of the editing core: the text as UTF-8 bytes, the
/// caret (a byte offset), the selection and the undo history.
pub struct WorkspaceView {
    pub text: Seq<u8>,
    pub cursor: usize,
    pub selection: Option<Range<usize>>,
    pub history: UndoHistory,
}

/// The edit that takes back `e`: the text it inserted is replaced by the text
/// it replaced, and the caret and selection go back.
pub open spec fn undo_action(e: EntryView) -> ActionView {
    ActionView::Edit {
        range: Range {
            start: e.range.start,
            end: (e.range.start + encode_utf8(e.new_text).len()) as usize,
        },
        replacement: e.old_text,
        new_cursor: e.old_cursor,
        new_selection: e.old_selection,
    }
}

/// The edit that makes `e` again.
pub open spec fn redo_action(e: EntryView) -> ActionView {
    ActionView::Edit {
        range: e.range,
        replacement: e.new_text,
        new_cursor: e.new_cursor,
        new_selection: e.new_selection,
    }
}

/// Whether `action` can be applied to text `b`: an edit's range must lie
/// within it, on char boundaries.
pub open spec fn action_fits(b: Seq<u8>, action: ActionView) -> bool {
    match action {
        ActionView::Edit { range, .. } => span_ok(b, range.start as int, range.end as int),
        _ => true,
    }
}

impl WorkspaceView {
    /// Whether `action` can be applied: an edit's range must lie within the
    /// text, on char boundaries.
    pub open spec fn action_ok(self, action: ActionView) -> bool {
        match action {
            ActionView::Edit { range, .. } => span_ok(self.text, range.start as int, range.end as int),
            _ => true,
        }
    }

    /// The undo entry an edit records: the range, the text it replaces and the
    /// text it inserts, and the caret and selection before and after.
    pub open spec fn edit_entry(
        self,
        range: Range<usize>,
        replacement: Seq<char>,
        new_cursor: usize,
        new_selection: Option<Range<usize>>,
    ) -> EntryView {
        EntryView {
            range,
            old_text: decode_utf8(self.text.subrange(range.start as int, range.end as int)),
            new_text: replacement,
            old_cursor: self.cursor,
            new_cursor,
            old_selection: self.selection,
            new_selection,
        }
    }

    /// The state after `action`: an edit replaces its range, moves the caret
    /// and sets the selection, and (when `record`) records itself in the
    /// history; a selection selects its range with the caret at the end it
    /// names; a caret move moves the caret and drops the selection.
    pub open spec fn applied(self, action: ActionView, record: bool) -> WorkspaceView {
        match action {
            ActionView::Edit { range, replacement, new_cursor, new_selection } => WorkspaceView {
                text: replaced(self.text, range, encode_utf8(replacement)),
                cursor: new_cursor,
                selection: new_selection,
                history: if record {
                    self.history.pushed(self.edit_entry(range, replacement, new_cursor, new_selection))
                } else {
                    self.history
                },
            },
            ActionView::Select { range, reversed } => WorkspaceView {
                text: self.text,
                cursor: if reversed { range.start } else { range.end },
                selection: Some(range),
                history: self.history,
            },
            ActionView::MoveCursor { new_cursor } => WorkspaceView {
                text: self.text,
                cursor: new_cursor,
                selection: None,
                history: self.history,
            },
            ActionView::Nothing => self,
        }
    }

    /// The caret and selection after `action` in a file whose editor is
    /// `active` or not: only the active editor's caret and selection are the
    /// workspace's, so another file's action leaves them alone.
    pub open spec fn caret_after(self, action: ActionView, active: bool) -> (usize, Option<Range<usize>>) {
        if !active {
            (self.cursor, self.selection)
        } else {
            match action {
                ActionView::Edit { new_cursor, new_selection, .. } => (new_cursor, new_selection),
                ActionView::Select { range, reversed } => (
                    if reversed { range.start } else { range.end },
                    Some(range),
                ),
                ActionView::MoveCursor { new_cursor } => (new_cursor, None),
                ActionView::Nothing => (self.cursor, self.selection),
            }
        }
    }

    /// The undo entry an edit of a file with text `file` records: the caret
    /// and selection before are the workspace's when the file's editor is
    /// active, else the start and no selection.
    pub open spec fn file_entry(
        self,
        file: Seq<u8>,
        range: Range<usize>,
        replacement: Seq<char>,
        new_cursor: usize,
        new_selection: Option<Range<usize>>,
        active: bool,
    ) -> EntryView {
        EntryView {
            range,
            old_text: decode_utf8(file.subrange(range.start as int, range.end as int)),
            new_text: replacement,
            old_cursor: if active { self.cursor } else { 0 },
            new_cursor,
            old_selection: if active { self.selection } else { None },
            new_selection,
        }
    }

    /// The state, and the file's new text, after `action` on a file other
    /// than the main document, with text `file`, whose editor is `active` or
    /// not: an edit changes the file and (when `record`) is recorded in the
    /// one history; the caret and selection change as [`Self::caret_after`]
    /// says; the main text stays.
    pub open spec fn applied_to_file(self, file: Seq<u8>, action: ActionView, record: bool, active: bool) -> (
        WorkspaceView,
        Seq<u8>,
    ) {
        let (c, s) = self.caret_after(action, active);
        match action {
            ActionView::Edit { range, replacement, new_cursor, new_selection } => (
                WorkspaceView {
                    text: self.text,
                    cursor: c,
                    selection: s,
                    history: if record {
                        self.history.pushed(
                            self.file_entry(file, range, replacement, new_cursor, new_selection, active),
                        )
                    } else {
                        self.history
                    },
                },
                replaced(file, range, encode_utf8(replacement)),
            ),
            _ => (WorkspaceView { text: self.text, cursor: c, selection: s, history: self.history }, file),
        }
    }

    /// The state after `action` on the main document when its editor is
    /// `active` or not (see [`Self::applied_to_file`]).
    pub open spec fn applied_to_main(self, action: ActionView, record: bool, active: bool) -> WorkspaceView {
        let (w, t) = self.applied_to_file(self.text, action, record, active);
        WorkspaceView { text: t, cursor: w.cursor, selection: w.selection, history: w.history }
    }

    /// The state with another history.
    pub open spec fn with_history(self, history: UndoHistory) -> WorkspaceView {
        WorkspaceView { text: self.text, cursor: self.cursor, selection: self.selection, history }
    }

    /// Whether undo can take back the most recent edit: the text it inserted
    /// is still a char range of the text (always, with nothing to undo).
    pub open spec fn undo_ok(self) -> bool {
        match self.history.undo_result() {
            Some(e) => e.range.start + encode_utf8(e.new_text).len() <= usize::MAX && span_ok(
                self.text,
                e.range.start as int,
                e.range.start + encode_utf8(e.new_text).len(),
            ),
            None => true,
        }
    }

    /// The state after undo: the most recent edit moves to the redo stack and
    /// is taken back, without being recorded again.
    pub open spec fn undone(self) -> WorkspaceView {
        match self.history.undo_result() {
            Some(e) => self.with_history(self.history.undone()).applied(undo_action(e), false),
            None => self,
        }
    }

    /// Whether redo can make the most recently undone edit again: its range
    /// is a char range of the text (always, with nothing to redo).
    pub open spec fn redo_ok(self) -> bool {
        match self.history.redo_result() {
            Some(e) => span_ok(self.text, e.range.start as int, e.range.end as int),
            None => true,
        }
    }

    /// The state after redo: the most recently undone edit moves back to the
    /// undo stack and is made again, without being recorded again.
    pub open spec fn redone(self) -> WorkspaceView {
        match self.history.redo_result() {
            Some(e) => self.with_history(self.history.redone()).applied(redo_action(e), false),
            None => self,
        }
    }
}

/// The editing core of the workspace: the main document's text, the caret,
/// the selection and a bounded undo history.
pub struct EditorWorkspace {
    text: String,
    cursor_offset: usize,
    selection: Option<Range<usize>>,
    undo_manager: UndoManager,
}

impl View for EditorWorkspace {
    type V = WorkspaceView;

    closed spec fn view(&self) -> WorkspaceView {
        WorkspaceView {
            text: encode_utf8(self.text@),
            cursor: self.cursor_offset,
            selection: self.selection,
            history: self.undo_manager@,
        }
    }
}

/// A copy of an optional range.
fn copy_selection(s: &Option<Range<usize>>) -> (r: Option<Range<usize>>)
    ensures
        r == *s,
{
    match s {
        Some(r) => Some(Range { start: r.start, end: r.end }),
        None => None,
    }
}

/// How many edits the history of a workspace keeps.
pub const HISTORY_DEPTH: usize = 200;

impl EditorWorkspace {
    /// Every workspace keeps a history of [`HISTORY_DEPTH`] edits.
    #[verifier::type_invariant]
    spec fn keeps_history_depth(self) -> bool {
        self.undo_manager@.max_depth == HISTORY_DEPTH
    }

    /// The history of every workspace stays within its depth limit, which is
    /// [`HISTORY_DEPTH`] (so at least one edit can always be undone).
    pub fn check_wf(&self)
        ensures
            self@.history.inv(),
            self@.history.max_depth == HISTORY_DEPTH,
    {
        proof {
            use_type_invariant(self);
        }
        self.undo_manager.check_wf();
    }

    /// A workspace on `text` with the caret at the start, no selection, and
    /// an empty history that keeps the last 200 edits.
    pub fn new(text: String) -> (r: Self)
        ensures
            r@.text == encode_utf8(text@),
            r@.cursor == 0,
            r@.selection.is_none(),
            r@.history.undo.len() == 0,
            r@.history.redo.len() == 0,
            r@.history.max_depth == HISTORY_DEPTH,
    {
        Self { text, cursor_offset: 0, selection: None, undo_manager: UndoManager::new(HISTORY_DEPTH) }
    }

    /// The text of the main document.
    pub fn text(&self) -> (r: &str)
        ensures
            bytes_of(r) == self@.text,
    {
        self.text.as_str()
    }

    /// The caret, a byte offset.
    pub fn cursor_offset(&self) -> (r: usize)
        ensures
            r == self@.cursor,
    {
        self.cursor_offset
    }

    /// The selection, if any.
    pub fn selection(&self) -> (r: Option<Range<usize>>)
        ensures
            r == self@.selection,
    {
        copy_selection(&self.selection)
    }

    /// Whether `action` can be applied (an edit's range must be a char range
    /// of the text).
    pub fn can_apply(&self, action: &EditorAction) -> (r: bool)
        ensures
            r == self@.action_ok(action@),
    {
        match action {
            EditorAction::Edit { range, .. } => {
                let text = self.text.as_str();
                range.start <= range.end && range.end <= text_len(text) && text.is_char_boundary(
                    range.start,
                ) && text.is_char_boundary(range.end)
            },
            _ => true,
        }
    }

    /// Applies `action` to a file other than the main document, whose text
    /// is `file` and whose editor is `active` or not (see
    /// [`WorkspaceView::applied_to_file`]); an edit is recorded for undo when
    /// `record`.
    pub fn apply_editor_action_for_file(&mut self, file: &mut String, action: EditorAction, record: bool, active: bool)
        requires
            action_fits(encode_utf8(old(file)@), action@),
        ensures
            (final(self)@, encode_utf8(final(file)@)) == old(self)@.applied_to_file(
                encode_utf8(old(file)@),
                action@,
                record,
                active,
            ),
    {
        proof {
            use_type_invariant(&*self);
        }
        match action {
            EditorAction::Edit { range, replacement, new_cursor, new_selection } => {
                let (new_text, old_text) = replace_range(file.as_str(), &range, replacement.as_str());
                if record {
                    proof {
                        vstd::utf8::encode_utf8_decode_utf8(old_text@);
                    }
                    let (old_cursor, old_selection) = if active {
                        (self.cursor_offset, copy_selection(&self.selection))
                    } else {
                        (0, None)
                    };
                    let entry = UndoEntry {
                        range: Range { start: range.start, end: range.end },
                        old_text,
                        new_text: replacement,
                        old_cursor,
                        new_cursor,
                        old_selection,
                        new_selection: copy_selection(&new_selection),
                    };
                    let mut history = UndoManager::new(HISTORY_DEPTH);
                    std::mem::swap(&mut history, &mut self.undo_manager);
                    history.push(entry);
                    self.undo_manager = history;
                }
                *file = new_text;
                if active {
                    self.cursor_offset = new_cursor;
                    self.selection = new_selection;
                }
            },
            EditorAction::Select { range, reversed } => {
                if active {
                    self.cursor_offset = if reversed {
                        range.start
                    } else {
                        range.end
                    };
                    self.selection = Some(range);
                }
            },
            EditorAction::MoveCursor { new_cursor } => {
                if active {
                    self.cursor_offset = new_cursor;
                    self.selection = None;
                }
            },
            EditorAction::NoAction => {},
        }
    }

    /// Applies `action` to the main document when its editor is `active` or
    /// not (see [`WorkspaceView::applied_to_main`]); an edit is recorded for
    /// undo when `record`.
    pub fn apply_editor_action_for_main(&mut self, action: EditorAction, record: bool, active: bool)
        requires
            old(self)@.action_ok(action@),
        ensures
            final(self)@ == old(self)@.applied_to_main(action@, record, active),
    {
        proof {
            use_type_invariant(&*self);
        }
        let mut text = String::new();
        std::mem::swap(&mut text, &mut self.text);
        self.apply_editor_action_for_file(&mut text, action, record, active);
        std::mem::swap(&mut text, &mut self.text);
    }

    fn apply_action(&mut self, action: EditorAction, record: bool)
        requires
            old(self)@.action_ok(action@),
        ensures
            final(self)@ == old(self)@.applied(action@, record),
    {
        self.apply_editor_action_for_main(action, record, true);
    }

    /// Applies `action` to the document and records an edit for undo.
    pub fn apply_editor_action(&mut self, action: EditorAction)
        requires
            old(self)@.action_ok(action@),
        ensures
            final(self)@ == old(self)@.applied(action@, true),
    {
        self.apply_action(action, true)
    }

    /// Applies `action` to the document without recording it for undo.
    pub fn apply_virtual_editor_action(&mut self, action: EditorAction)
        requires
            old(self)@.action_ok(action@),
        ensures
            final(self)@ == old(self)@.applied(action@, false),
    {
        self.apply_action(action, false)
    }

    /// Whether undo can take back the most recent edit (see
    /// [`WorkspaceView::undo_ok`]).
    pub fn can_undo(&self) -> (r: bool)
        ensures
            r == self@.undo_ok(),
    {
        match self.undo_manager.peek_undo() {
            Some(e) => {
                let text = self.text.as_str();
                let n = text_len(e.new_text.as_str());
                let len = text_len(text);
                e.range.start <= len && n <= len - e.range.start && text.is_char_boundary(
                    e.range.start,
                ) && text.is_char_boundary(e.range.start + n)
            },
            None => true,
        }
    }

    /// Takes back the most recent edit; nothing happens when there is none.
    pub fn undo(&mut self)
        requires
            old(self)@.undo_ok(),
        ensures
            final(self)@ == old(self)@.undone(),
    {
        proof {
            use_type_invariant(&*self);
        }
        let mut history = UndoManager::new(HISTORY_DEPTH);
        std::mem::swap(&mut history, &mut self.undo_manager);
        let top = history.undo();
        self.undo_manager = history;
        if let Some(entry) = top {
            let n = text_len(entry.new_text.as_str());
            let action = EditorAction::Edit {
                range: Range { start: entry.range.start, end: entry.range.start + n },
                replacement: entry.old_text,
                new_cursor: entry.old_cursor,
                new_selection: entry.old_selection,
            };
            self.apply_action(action, false);
        }
    }

    /// Whether redo can make the most recently undone edit again (see
    /// [`WorkspaceView::redo_ok`]).
    pub fn can_redo(&self) -> (r: bool)
        ensures
            r == self@.redo_ok(),
    {
        match self.undo_manager.peek_redo() {
            Some(e) => {
                let text = self.text.as_str();
                e.range.start <= e.range.end && e.range.end <= text_len(text) && text.is_char_boundary(
                    e.range.start,
                ) && text.is_char_boundary(e.range.end)
            },
            None => true,
        }
    }

    /// Makes the most recently undone edit again; nothing happens when there
    /// is none.
    pub fn redo(&mut self)
        requires
            old(self)@.redo_ok(),
        ensures
            final(self)@ == old(self)@.redone(),
    {
        proof {
            use_type_invariant(&*self);
        }
        let mut history = UndoManager::new(HISTORY_DEPTH);
        std::mem::swap(&mut history, &mut self.undo_manager);
        let top = history.redo();
        self.undo_manager = history;
        if let Some(entry) = top {
            let action = EditorAction::Edit {
                range: entry.range,
                replacement: entry.new_text,
                new_cursor: entry.new_cursor,
                new_selection: entry.new_selection,
            };
            self.apply_action(action, false);
        }
    }
}

// ---------------------------------------------------------------------------
// Laws
// ---------------------------------------------------------------------------

/// The edit action with these fields.
pub open spec fn edit_action(
    range: Range<usize>,
    replacement: Seq<char>,
    new_cursor: usize,
    new_selection: Option<Range<usize>>,
) -> ActionView {
    ActionView::Edit { range, replacement, new_cursor, new_selection }
}

/// The facts both laws below rest on: after a recorded edit, its entry is on
/// top of the undo stack, the new text is the old one with the range
/// replaced, and the inserted text is a char range of it.
proof fn lemma_recorded_edit(
    w: WorkspaceView,
    range: Range<usize>,
    replacement: Seq<char>,
    new_cursor: usize,
    new_selection: Option<Range<usize>>,
)
    requires
        valid_utf8(w.text),
        w.history.inv(),
        w.history.max_depth > 0,
        span_ok(w.text, range.start as int, range.end as int),
        w.text.len() - (range.end - range.start) + encode_utf8(replacement).len() <= usize::MAX,
    ensures
        ({
            let w1 = w.applied(edit_action(range, replacement, new_cursor, new_selection), true);
            let e = w.edit_entry(range, replacement, new_cursor, new_selection);
            &&& w1.history.undo_result() == Some(e)
            &&& w1.undo_ok()
            &&& replaced(
                w1.text,
                Range {
                    start: range.start,
                    end: (range.start + encode_utf8(replacement).len()) as usize,
                },
                encode_utf8(e.old_text),
            ) == w.text
        }),
{
    let w1 = w.applied(edit_action(range, replacement, new_cursor, new_selection), true);
    let e = w.edit_entry(range, replacement, new_cursor, new_selection);
    let b = w.text;
    let s = range.start as int;
    let t = range.end as int;
    let r = encode_utf8(replacement);
    let pre = b.subrange(0, s);
    let mid = b.subrange(s, t);
    let post = b.subrange(t, b.len() as int);
    lemma_split3(b, s, t);
    vstd::utf8::encode_utf8_valid_utf8(replacement);
    vstd::utf8::decode_utf8_encode_utf8(mid);
    lemma_boundary_concat(r, post);
    lemma_boundary_concat(pre, r + post);
    lemma_boundary_concat(pre, r);
    lemma_boundary_concat(pre + r, post);
    assert(w1.text =~= pre + r + post);
    assert(pre + (r + post) =~= pre + r + post);
    let u = w.history.undo.push(e);
    if u.len() > w.history.max_depth {
        assert(u.drop_first().last() == e);
    }
    assert(w1.text.subrange(0, s) =~= pre);
    assert(w1.text.subrange(s + r.len(), w1.text.len() as int) =~= post);
}

/// Undo right after a recorded edit takes it back: the text, the caret and
/// the selection are what they were before the edit. (The history must keep
/// at least one entry, and the edited text must fit in memory.)
pub proof fn law_undo_restores_edit(
    w: WorkspaceView,
    range: Range<usize>,
    replacement: Seq<char>,
    new_cursor: usize,
    new_selection: Option<Range<usize>>,
)
    requires
        valid_utf8(w.text),
        w.history.inv(),
        w.history.max_depth > 0,
        span_ok(w.text, range.start as int, range.end as int),
        w.text.len() - (range.end - range.start) + encode_utf8(replacement).len() <= usize::MAX,
    ensures
        ({
            let w1 = w.applied(edit_action(range, replacement, new_cursor, new_selection), true);
            &&& w1.undo_ok()
            &&& w1.undone().text == w.text
            &&& w1.undone().cursor == w.cursor
            &&& w1.undone().selection == w.selection
        }),
{
    lemma_recorded_edit(w, range, replacement, new_cursor, new_selection);
}

/// Redo right after that undo makes the edit again: the text, the caret and
/// the selection are those the edit produced, and so is the history.
pub proof fn law_redo_reapplies_edit(
    w: WorkspaceView,
    range: Range<usize>,
    replacement: Seq<char>,
    new_cursor: usize,
    new_selection: Option<Range<usize>>,
)
    requires
        valid_utf8(w.text),
        w.history.inv(),
        w.history.max_depth > 0,
        span_ok(w.text, range.start as int, range.end as int),
        w.text.len() - (range.end - range.start) + encode_utf8(replacement).len() <= usize::MAX,
    ensures
        ({
            let w1 = w.applied(edit_action(range, replacement, new_cursor, new_selection), true);
            let w2 = w1.undone();
            &&& w2.redo_ok()
            &&& w2.redone() == w1
        }),
{
    let w1 = w.applied(edit_action(range, replacement, new_cursor, new_selection), true);
    lemma_recorded_edit(w, range, replacement, new_cursor, new_selection);
    crate::editor::undo::law_redo_inverts_undo(w1.history);
    let w2 = w1.undone();
    assert(w2.text == w.text);
    assert(w2.history == w1.history.undone());
}

/// An action applied without recording leaves the history as it was.
pub proof fn law_virtual_action_keeps_history(w: WorkspaceView, action: ActionView)
    ensures
        w.applied(action, false).history == w.history,
{
}

} // verus!
