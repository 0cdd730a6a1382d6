use typst_writer::ribbon::{ribbon_action, toggle_style_action};
use typst_writer::{EditorAction, EditorWorkspace};

fn edit(start: usize, end: usize, rep: &str, cursor: usize, sel: Option<(usize, usize)>) -> EditorAction {
    EditorAction::Edit {
        range: start..end,
        replacement: rep.to_string(),
        new_cursor: cursor,
        new_selection: sel.map(|(a, b)| a..b),
    }
}

#[test]
fn bold_wraps_a_selection_in_markers() {
    let r = ribbon_action("say hi now", 0, &Some(4..6), "bold");
    assert_eq!(r, edit(4, 6, "*hi*", 8, Some((5, 7))));
}

#[test]
fn italic_wraps_a_selection_in_underscores() {
    let r = ribbon_action("say hi now", 0, &Some(4..6), "italic");
    assert_eq!(r, edit(4, 6, "_hi_", 8, Some((5, 7))));
}

#[test]
fn bold_removes_markers_inside_the_selection() {
    let r = ribbon_action("a *hi* b", 0, &Some(2..6), "bold");
    assert_eq!(r, edit(2, 6, "hi", 4, Some((2, 4))));
}

#[test]
fn bold_removes_markers_around_the_selection() {
    let r = ribbon_action("a *hi* b", 0, &Some(3..5), "bold");
    assert_eq!(r, edit(2, 6, "hi", 4, Some((2, 4))));
}

#[test]
fn bold_removes_a_function_form_inside_the_selection() {
    let r = ribbon_action("x#strong[hi]y", 0, &Some(1..12), "bold");
    assert_eq!(r, edit(1, 12, "hi", 3, Some((1, 3))));
}

#[test]
fn bold_removes_a_function_form_around_the_selection() {
    let r = ribbon_action("x#strong[hi]y", 0, &Some(9..11), "bold");
    assert_eq!(r, edit(1, 12, "hi", 3, Some((1, 3))));
}

#[test]
fn bold_uses_the_function_form_when_a_letter_touches_the_selection() {
    let r = ribbon_action("abcd", 0, &Some(1..3), "bold");
    assert_eq!(r, edit(1, 3, "#strong[bc]", 12, Some((9, 11))));
    let r = ribbon_action("abcd", 0, &Some(1..3), "italic");
    assert_eq!(r, edit(1, 3, "#emph[bc]", 10, Some((7, 9))));
}

#[test]
fn bold_wraps_each_run_between_the_other_markers() {
    let r = ribbon_action("a_b", 0, &Some(0..3), "bold");
    assert_eq!(r, edit(0, 3, "*a*_*b*", 7, Some((0, 7))));
}

#[test]
fn bold_without_selection_takes_the_word_at_the_caret() {
    let r = ribbon_action("say hello now", 6, &None, "bold");
    assert_eq!(r, edit(4, 9, "*hello*", 11, Some((5, 10))));
}

#[test]
fn bold_without_word_inserts_a_placeholder() {
    let r = ribbon_action("a  b", 2, &None, "bold");
    assert_eq!(r, edit(2, 2, " *bold text* ", 13, Some((4, 13))));
    let r = ribbon_action("", 0, &None, "italic");
    assert_eq!(r, edit(0, 0, " _italic text_ ", 13, Some((2, 13))));
}

#[test]
fn an_empty_or_reversed_selection_falls_back_to_the_word() {
    let r = ribbon_action("say hello now", 5, &Some(7..7), "bold");
    assert_eq!(r, edit(4, 9, "*hello*", 11, Some((5, 10))));
    let r = ribbon_action("say hello now", 5, &Some(8..2), "bold");
    assert_eq!(r, edit(4, 9, "*hello*", 11, Some((5, 10))));
}

#[test]
fn templates_insert_at_the_clamped_caret() {
    let r = ribbon_action("ab", 1, &None, "math_frac");
    assert_eq!(r, edit(1, 1, " (? / ?) ", 3, None));
    let r = ribbon_action("ab", 99, &None, "heading");
    assert_eq!(r, edit(2, 2, "\n= New Section\n", 16, None));
    let r = ribbon_action("", 0, &None, "code_show");
    assert_eq!(r, edit(0, 0, "\n#show heading: emph\n", 21, None));
}

#[test]
fn an_unknown_command_inserts_nothing() {
    let r = ribbon_action("ab", 1, &None, "frobnicate");
    assert_eq!(r, edit(1, 1, "", 1, None));
}

#[test]
fn toggling_rounds_offsets_down_to_char_boundaries() {
    // "é" takes two bytes; offset 2 falls inside it.
    let r = toggle_style_action(" é x", 4, 2, true);
    assert_eq!(r, edit(1, 4, "#strong[é ]", 13, Some((9, 12))));
}

#[test]
fn the_word_at_the_caret_may_hold_letters_beyond_ascii() {
    let r = ribbon_action("say héllo now", 7, &None, "bold");
    assert_eq!(r, edit(4, 10, "*héllo*", 12, Some((5, 11))));
}

fn toggle_in(ws: &mut EditorWorkspace, bold: bool) {
    let sel = ws.selection().expect("a selection");
    let text = ws.text().to_string();
    let action = toggle_style_action(&text, sel.start, sel.end, bold);
    assert!(ws.can_apply(&action));
    ws.apply_editor_action(action);
}

#[test]
fn toggling_bold_twice_gives_back_the_text() {
    for (text, sel) in [("say hi now", 4..6), ("abcd", 1..3), ("x é y", 2..4), ("", 0..0)] {
        let mut ws = EditorWorkspace::new(text.to_string());
        ws.apply_editor_action(EditorAction::Select { range: sel, reversed: false });
        toggle_in(&mut ws, true);
        assert_ne!(ws.text(), text);
        toggle_in(&mut ws, true);
        assert_eq!(ws.text(), text);
    }
}

#[test]
fn toggling_italic_twice_gives_back_the_text() {
    let mut ws = EditorWorkspace::new("one two".to_string());
    ws.apply_editor_action(EditorAction::Select { range: 4..7, reversed: false });
    toggle_in(&mut ws, false);
    assert_eq!(ws.text(), "one _two_");
    toggle_in(&mut ws, false);
    assert_eq!(ws.text(), "one two");
}
