use std::ops::Range;
use vstd::prelude::*;

verus! {

/// `Clone` of `std::ops::Range`, which the derived `Clone` of the editor types
/// calls. Nothing is claimed of the copy.
pub assume_specification<Idx: Clone>[ <Range<Idx> as Clone>::clone ](r: &Range<Idx>) -> Range<Idx>;

/// The syntactic mode the caret is in.
#[derive(Debug, Clone, Copy, PartialEq, Eq, Structural)]
pub enum EditorContext {
    Markup,
    Math,
    Code,
}

/// A snapshot of the editor: the text, the caret (a byte offset), an optional
/// selection (byte range) and the syntactic context of the caret.
#[derive(Debug, Clone)]
pub struct EditorState<'a> {
    pub text: &'a str,
    pub cursor: usize,
    pub selection: Option<Range<usize>>,
    pub context: EditorContext,
}

/// What the editor should do in response to an input event.
#[derive(Debug, Clone, PartialEq, Eq)]
pub enum EditorAction {
    Edit {
        range: Range<usize>,
        replacement: String,
        new_cursor: usize,
        new_selection: Option<Range<usize>>,
    },
    Select {
        range: Range<usize>,
        reversed: bool,
    },
    MoveCursor {
        new_cursor: usize,
    },
    NoAction,
}

/// Mathematical view of an [`EditorAction`]: the replacement text is a
/// sequence of characters.
pub enum ActionView {
    Edit {
        range: Range<usize>,
        replacement: Seq<char>,
        new_cursor: usize,
        new_selection: Option<Range<usize>>,
    },
    Select {
        range: Range<usize>,
        reversed: bool,
    },
    MoveCursor {
        new_cursor: usize,
    },
    Nothing,
}

impl View for EditorAction {
    type V = ActionView;

    open spec fn view(&self) -> ActionView {
        match self {
            EditorAction::Edit { range, replacement, new_cursor, new_selection } => ActionView::Edit {
                range: *range,
                replacement: replacement@,
                new_cursor: *new_cursor,
                new_selection: *new_selection,
            },
            EditorAction::Select { range, reversed } => ActionView::Select {
                range: *range,
                reversed: *reversed,
            },
            EditorAction::MoveCursor { new_cursor } => ActionView::MoveCursor {
                new_cursor: *new_cursor,
            },
            EditorAction::NoAction => ActionView::Nothing,
        }
    }
}

/// The view of an optional action.
pub open spec fn opt_action(r: Option<EditorAction>) -> Option<ActionView> {
    match r {
        Some(a) => Some(a@),
        None => None,
    }
}

/// An edit that replaces `range` and leaves no selection.
pub open spec fn edit_view(range: Range<usize>, replacement: Seq<char>, new_cursor: int) -> ActionView {
    ActionView::Edit { range, replacement, new_cursor: new_cursor as usize, new_selection: None }
}

/// A selection of `range`.
pub open spec fn select_view(range: Range<usize>, reversed: bool) -> ActionView {
    ActionView::Select { range, reversed }
}

/// An edit that replaces `range` and leaves no selection.
pub fn edit(range: Range<usize>, replacement: String, new_cursor: usize) -> (r: EditorAction)
    ensures
        r@ == edit_view(range, replacement@, new_cursor as int),
{
    EditorAction::Edit { range, replacement, new_cursor, new_selection: None }
}

/// A selection of `range`.
pub fn select(range: Range<usize>, reversed: bool) -> (r: EditorAction)
    ensures
        r@ == select_view(range, reversed),
{
    EditorAction::Select { range, reversed }
}

/// The empty text.
pub fn no_text() -> (s: String)
    ensures
        s@ == Seq::<char>::empty(),
{
    String::new()
}

/// The text `?`.
pub fn qmark_text() -> (s: String)
    ensures
        s@ == seq!['?'],
{
    proof {
        reveal_strlit("?");
    }
    "?".to_owned()
}

/// The text of one space.
pub fn space_text() -> (s: String)
    ensures
        s@ == seq![' '],
{
    proof {
        reveal_strlit(" ");
    }
    " ".to_owned()
}

/// The text of a line break.
pub fn newline_text() -> (s: String)
    ensures
        s@ == seq!['\n'],
{
    proof {
        reveal_strlit("\n");
    }
    "\n".to_owned()
}

/// The text of two spaces.
pub fn indent_text() -> (s: String)
    ensures
        s@ == seq![' ', ' '],
{
    proof {
        reveal_strlit("  ");
    }
    "  ".to_owned()
}

} // verus!
