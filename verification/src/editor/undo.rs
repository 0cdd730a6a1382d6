use std::ops::Range;
use vstd::prelude::*;

verus! {

/// One reversible edit: the replaced range, the text before and after, and
/// the caret and selection before and after.
#[derive(Debug, Clone)]
pub struct UndoEntry {
    pub range: Range<usize>,
    pub old_text: String,
    pub new_text: String,
    pub old_cursor: usize,
    pub new_cursor: usize,
    pub old_selection: Option<Range<usize>>,
    pub new_selection: Option<Range<usize>>,
}

/// The mathematical value of an [`UndoEntry`]: the texts as sequences of
/// characters.
pub struct EntryView {
    pub range: Range<usize>,
    pub old_text: Seq<char>,
    pub new_text: Seq<char>,
    pub old_cursor: usize,
    pub new_cursor: usize,
    pub old_selection: Option<Range<usize>>,
    pub new_selection: Option<Range<usize>>,
}

impl View for UndoEntry {
    type V = EntryView;

    open spec fn view(&self) -> EntryView {
        EntryView {
            range: self.range,
            old_text: self.old_text@,
            new_text: self.new_text@,
            old_cursor: self.old_cursor,
            new_cursor: self.new_cursor,
            old_selection: self.old_selection,
            new_selection: self.new_selection,
        }
    }
}

/// The view of an optional entry.
pub open spec fn opt_entry(r: Option<UndoEntry>) -> Option<EntryView> {
    match r {
        Some(e) => Some(e@),
        None => None,
    }
}

impl UndoEntry {
    /// A field-by-field copy of the entry.
    pub fn duplicate(&self) -> (r: UndoEntry)
        ensures
            r@ == self@,
    {
        UndoEntry {
            range: Range { start: self.range.start, end: self.range.end },
            old_text: self.old_text.clone(),
            new_text: self.new_text.clone(),
            old_cursor: self.old_cursor,
            new_cursor: self.new_cursor,
            old_selection: match &self.old_selection {
                Some(r) => Some(Range { start: r.start, end: r.end }),
                None => None,
            },
            new_selection: match &self.new_selection {
                Some(r) => Some(Range { start: r.start, end: r.end }),
                None => None,
            },
        }
    }
}

/// The abstract state of an undo manager: the undo stack and the redo stack
/// (top of each stack last) and the depth limit.
pub struct UndoHistory {
    pub undo: Seq<EntryView>,
    pub redo: Seq<EntryView>,
    pub max_depth: nat,
}

impl UndoHistory {
    /// The history never holds more than `max_depth` entries in all.
    pub open spec fn inv(self) -> bool {
        self.undo.len() + self.redo.len() <= self.max_depth
    }

    /// The history after recording `entry`: it goes on top of the undo stack,
    /// the oldest entry is dropped when the depth limit is exceeded, and the
    /// redo stack is emptied.
    pub open spec fn pushed(self, entry: EntryView) -> UndoHistory {
        let u = self.undo.push(entry);
        UndoHistory {
            undo: if u.len() > self.max_depth { u.drop_first() } else { u },
            redo: Seq::empty(),
            max_depth: self.max_depth,
        }
    }

    /// The entry that undo hands back, if any: the top of the undo stack.
    pub open spec fn undo_result(self) -> Option<EntryView> {
        if self.undo.len() == 0 { None } else { Some(self.undo.last()) }
    }

    /// The history after an undo: the top of the undo stack moves onto the
    /// redo stack (no change when the undo stack is empty).
    pub open spec fn undone(self) -> UndoHistory {
        if self.undo.len() == 0 {
            self
        } else {
            UndoHistory {
                undo: self.undo.drop_last(),
                redo: self.redo.push(self.undo.last()),
                max_depth: self.max_depth,
            }
        }
    }

    /// The entry that redo hands back, if any: the top of the redo stack.
    pub open spec fn redo_result(self) -> Option<EntryView> {
        if self.redo.len() == 0 { None } else { Some(self.redo.last()) }
    }

    /// The history after a redo: the top of the redo stack moves back onto the
    /// undo stack (no change when the redo stack is empty).
    pub open spec fn redone(self) -> UndoHistory {
        if self.redo.len() == 0 {
            self
        } else {
            UndoHistory {
                undo: self.undo.push(self.redo.last()),
                redo: self.redo.drop_last(),
                max_depth: self.max_depth,
            }
        }
    }
}

/// The views of a stack of entries.
pub open spec fn entry_views(v: Seq<UndoEntry>) -> Seq<EntryView> {
    v.map_values(|e: UndoEntry| e@)
}

/// A bounded undo/redo history of edits.
pub struct UndoManager {
    undo_stack: Vec<UndoEntry>,
    redo_stack: Vec<UndoEntry>,
    max_depth: usize,
}

impl View for UndoManager {
    type V = UndoHistory;

    closed spec fn view(&self) -> UndoHistory {
        UndoHistory {
            undo: entry_views(self.undo_stack@),
            redo: entry_views(self.redo_stack@),
            max_depth: self.max_depth as nat,
        }
    }
}

impl UndoManager {
    #[verifier::type_invariant]
    spec fn within_depth(self) -> bool {
        self@.inv()
    }

    /// Every history stays within its depth limit.
    pub fn check_wf(&self)
        ensures
            self@.inv(),
    {
        proof {
            use_type_invariant(self);
        }
    }

    /// An empty history that keeps at most `max_depth` entries.
    pub fn new(max_depth: usize) -> (r: Self)
        ensures
            r@.undo == Seq::<EntryView>::empty(),
            r@.redo == Seq::<EntryView>::empty(),
            r@.max_depth == max_depth,
    {
        let r = Self { undo_stack: Vec::new(), redo_stack: Vec::new(), max_depth };
        proof {
            assert(r@.undo =~= Seq::<EntryView>::empty());
            assert(r@.redo =~= Seq::<EntryView>::empty());
        }
        r
    }

    /// Records a new edit; this discards everything that could be redone.
    pub fn push(&mut self, entry: UndoEntry)
        ensures
            final(self)@ == old(self)@.pushed(entry@),
    {
        proof {
            use_type_invariant(&*self);
        }
        let ghost e = entry@;
        let ghost before = self.undo_stack@;
        let mut undo: Vec<UndoEntry> = Vec::new();
        std::mem::swap(&mut undo, &mut self.undo_stack);
        self.redo_stack = Vec::new();
        undo.push(entry);
        proof {
            assert(entry_views(undo@) =~= entry_views(before).push(e));
            assert(entry_views(self.redo_stack@) =~= Seq::<EntryView>::empty());
        }
        if undo.len() > self.max_depth {
            let ghost pushed = undo@;
            undo.remove(0);
            proof {
                assert(entry_views(undo@) =~= entry_views(pushed).drop_first());
            }
        }
        self.undo_stack = undo;
    }

    /// The edit that undo would take back, if any.
    pub fn peek_undo(&self) -> (r: Option<&UndoEntry>)
        ensures
            match r {
                Some(e) => self@.undo_result() == Some(e@),
                None => self@.undo_result() is None,
            },
    {
        let n = self.undo_stack.len();
        if n == 0 {
            None
        } else {
            Some(&self.undo_stack[n - 1])
        }
    }

    /// The edit that redo would make again, if any.
    pub fn peek_redo(&self) -> (r: Option<&UndoEntry>)
        ensures
            match r {
                Some(e) => self@.redo_result() == Some(e@),
                None => self@.redo_result() is None,
            },
    {
        let n = self.redo_stack.len();
        if n == 0 {
            None
        } else {
            Some(&self.redo_stack[n - 1])
        }
    }

    /// Takes back the most recent edit, making it available to redo.
    pub fn undo(&mut self) -> (r: Option<UndoEntry>)
        ensures
            opt_entry(r) == old(self)@.undo_result(),
            final(self)@ == old(self)@.undone(),
    {
        proof {
            use_type_invariant(&*self);
        }
        let mut undo: Vec<UndoEntry> = Vec::new();
        std::mem::swap(&mut undo, &mut self.undo_stack);
        let top = undo.pop();
        self.undo_stack = undo;
        match top {
            Some(entry) => {
                let mut redo: Vec<UndoEntry> = Vec::new();
                std::mem::swap(&mut redo, &mut self.redo_stack);
                redo.push(entry.duplicate());
                self.redo_stack = redo;
                proof {
                    assert(entry_views(self.undo_stack@) =~= entry_views(old(self).undo_stack@).drop_last());
                    assert(entry_views(self.redo_stack@) =~= entry_views(old(self).redo_stack@).push(entry@));
                }
                Some(entry)
            },
            None => {
                proof {
                    assert(entry_views(self.undo_stack@) =~= entry_views(old(self).undo_stack@));
                }
                None
            },
        }
    }

    /// Re-applies the most recently undone edit.
    pub fn redo(&mut self) -> (r: Option<UndoEntry>)
        ensures
            opt_entry(r) == old(self)@.redo_result(),
            final(self)@ == old(self)@.redone(),
    {
        proof {
            use_type_invariant(&*self);
        }
        let mut redo: Vec<UndoEntry> = Vec::new();
        std::mem::swap(&mut redo, &mut self.redo_stack);
        let top = redo.pop();
        self.redo_stack = redo;
        match top {
            Some(entry) => {
                let mut undo: Vec<UndoEntry> = Vec::new();
                std::mem::swap(&mut undo, &mut self.undo_stack);
                undo.push(entry.duplicate());
                self.undo_stack = undo;
                proof {
                    assert(entry_views(self.redo_stack@) =~= entry_views(old(self).redo_stack@).drop_last());
                    assert(entry_views(self.undo_stack@) =~= entry_views(old(self).undo_stack@).push(entry@));
                }
                Some(entry)
            },
            None => {
                proof {
                    assert(entry_views(self.redo_stack@) =~= entry_views(old(self).redo_stack@));
                }
                None
            },
        }
    }
}

/// Undo right after recording an edit hands that edit back, provided the
/// history keeps at least one entry.
pub proof fn law_undo_returns_recorded_edit(h: UndoHistory, entry: EntryView)
    requires
        h.inv(),
        h.max_depth > 0,
    ensures
        h.pushed(entry).undo_result() == Some(entry),
{
}

/// Recording an edit leaves nothing to redo.
pub proof fn law_record_discards_redo(h: UndoHistory, entry: EntryView)
    ensures
        h.pushed(entry).redo_result() == None::<EntryView>,
        h.pushed(entry).inv() || !h.inv(),
{
}

/// Redo after undo hands back the same edit and restores the history.
pub proof fn law_redo_inverts_undo(h: UndoHistory)
    requires
        h.undo.len() > 0,
    ensures
        h.undone().redo_result() == h.undo_result(),
        h.undone().redone() == h,
{
    assert(h.undone().redone().undo =~= h.undo);
    assert(h.undone().redone().redo =~= h.redo);
}

/// Undo after redo hands back the same edit and restores the history.
pub proof fn law_undo_inverts_redo(h: UndoHistory)
    requires
        h.redo.len() > 0,
    ensures
        h.redone().undo_result() == h.redo_result(),
        h.redone().undone() == h,
{
    assert(h.redone().undone().undo =~= h.undo);
    assert(h.redone().undone().redo =~= h.redo);
}

/// Undo and redo never change how many entries the history holds.
pub proof fn law_undo_redo_keep_size(h: UndoHistory)
    ensures
        h.undone().undo.len() + h.undone().redo.len() == h.undo.len() + h.redo.len(),
        h.redone().undo.len() + h.redone().redo.len() == h.undo.len() + h.redo.len(),
        h.undone().max_depth == h.max_depth,
        h.redone().max_depth == h.max_depth,
{
}

} // verus!
