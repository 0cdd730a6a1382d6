use typst_writer::compiler::{extract_structural_ranges, hash_text_regions};
use typst_writer::log::{filter_logs, shows_level, FilterLevel};
use typst_writer::editor::offset::map_offset_between_texts;
use typst_writer::project::{file_url, is_watched_change};
use typst_writer::ribbon::ribbon_action;
use typst_writer::syntax::Document;
use typst_writer::timings::{duration_stats, sort_timings};
use typst_writer::{EditorAction, EditorWorkspace};

#[test]
fn a_let_binding_inside_a_code_block_is_not_structural() {
    assert_eq!(extract_structural_ranges(&Document::detached("#{ let x = 1 }")), Vec::<std::ops::Range<usize>>::new());
}

#[test]
fn rules_nested_in_blocks_are_structural() {
    assert_eq!(extract_structural_ranges(&Document::detached("#[#set text(red)]")), vec![3..16]);
}

#[test]
fn top_level_structure_is_found_last_child_first() {
    let ranges = extract_structural_ranges(&Document::detached("#let x = 1\n= Title\n"));
    assert_eq!(ranges, vec![11..18, 1..10]);
}

#[test]
fn carried_offsets_keep_their_order() {
    let (a, c) = ("the quick fox", "the slow brown fox");
    let mut last = 0;
    for o in 0..=a.len() {
        let m = map_offset_between_texts(a, c, o);
        assert!(m >= last);
        assert!(m <= c.len());
        last = m;
    }
}

#[test]
fn the_workspace_history_keeps_two_hundred_edits() {
    let mut ws = EditorWorkspace::new(String::new());
    for k in 0..201usize {
        let edit = EditorAction::Edit { range: k..k, replacement: "a".to_string(), new_cursor: k + 1, new_selection: None };
        assert!(ws.can_apply(&edit));
        ws.apply_editor_action(edit);
    }
    for _ in 0..200 {
        assert!(ws.can_undo());
        ws.undo();
    }
    assert_eq!(ws.text(), "a");
    ws.undo();
    assert_eq!(ws.text(), "a");
}

#[test]
fn bold_on_a_lone_word_and_back() {
    let r = ribbon_action("say hi now", 0, &Some(4..6), "bold");
    assert_eq!(
        r,
        EditorAction::Edit { range: 4..6, replacement: "*hi*".to_string(), new_cursor: 8, new_selection: Some(5..7) }
    );
    let r = ribbon_action("say *hi* now", 0, &Some(5..7), "bold");
    assert_eq!(
        r,
        EditorAction::Edit { range: 4..8, replacement: "hi".to_string(), new_cursor: 6, new_selection: Some(4..6) }
    );
}

#[test]
fn timing_statistics() {
    assert_eq!(sort_timings(&vec![5, 1, 4, 2, 3]), vec![1, 2, 3, 4, 5]);
    assert_eq!(duration_stats(&vec![5, 1, 4, 2, 3]), (1, 5, 3, 3));
    assert_eq!(duration_stats(&vec![4, 1, 3, 2]), (1, 4, 3, 2));
    assert_eq!(duration_stats(&vec![]), (0, 0, 0, 0));
    assert_eq!(duration_stats(&vec![u64::MAX, u64::MAX]), (u64::MAX, u64::MAX, u64::MAX, u64::MAX));
}

fn parts(p: &[&str]) -> Vec<String> {
    p.iter().map(|s| s.to_string()).collect()
}

#[test]
fn watched_changes() {
    assert!(is_watched_change(true, &parts(&["/", "home", "doc", "main.typ"])));
    assert!(!is_watched_change(true, &parts(&["/", "p", "target", "a.o"])));
    assert!(!is_watched_change(true, &parts(&["p", ".git", "HEAD"])));
    assert!(!is_watched_change(true, &parts(&["p", "node_modules", "x"])));
    assert!(!is_watched_change(true, &parts(&["p", ".gemini", "x"])));
    assert!(is_watched_change(true, &parts(&["p", ".gitignore"])));
    assert!(!is_watched_change(false, &parts(&["p", "main.typ"])));
}

#[test]
fn the_region_hash_depends_only_on_the_region_bytes() {
    assert_eq!(hash_text_regions("ab", &[0..1, 1..2]), hash_text_regions("xab", &[1..3]));
    assert_eq!(hash_text_regions("ab", &[0..2, 5..9]), hash_text_regions("zzab", &[2..4]));
    assert_ne!(hash_text_regions("ab", &[0..2]), hash_text_regions("ba", &[0..2]));
}

#[test]
fn the_log_filter_keeps_the_entries_of_its_level() {
    let e = |t: &str, l: &str, m: &str| (t.to_string(), l.to_string(), m.to_string());
    let logs = vec![e("1", "INFO", "a"), e("2", "WARN", "b"), e("3", "INFO", "c"), e("4", "ERROR", "d")];
    assert_eq!(filter_logs(&logs, FilterLevel::All), logs);
    assert_eq!(filter_logs(&logs, FilterLevel::Info), vec![e("1", "INFO", "a"), e("3", "INFO", "c")]);
    assert_eq!(filter_logs(&logs, FilterLevel::Warn), vec![e("2", "WARN", "b")]);
    assert_eq!(filter_logs(&logs, FilterLevel::Error), vec![e("4", "ERROR", "d")]);
    assert!(filter_logs(&logs, FilterLevel::Debug).is_empty());
    assert!(shows_level(FilterLevel::Debug, "DEBUG"));
    assert!(!shows_level(FilterLevel::Info, "info"));
}

#[test]
fn file_urls_are_taken_relative_to_the_root() {
    assert_eq!(file_url("/home/u/proj", "main.typ"), Some("file:///home/u/proj/main.typ".to_string()));
    assert_eq!(file_url("/home/u/proj", "/tmp/a.typ"), Some("file:///tmp/a.typ".to_string()));
    assert_eq!(file_url("/home/u/proj", "/tmp/a b.typ"), Some("file:///tmp/a%20b.typ".to_string()));
}

#[test]
fn an_edit_of_another_file_keeps_the_main_text() {
    let mut ws = EditorWorkspace::new("main".to_string());
    let mut other = "abc".to_string();
    let edit = EditorAction::Edit { range: 1..2, replacement: "X".to_string(), new_cursor: 2, new_selection: Some(0..1) };
    ws.apply_editor_action_for_file(&mut other, edit.clone(), true, false);
    assert_eq!(other, "aXc");
    assert_eq!(ws.text(), "main");
    assert_eq!(ws.cursor_offset(), 0);
    assert_eq!(ws.selection(), None);
    assert!(ws.can_undo());

    let mut other = "abc".to_string();
    ws.apply_editor_action_for_file(&mut other, edit, false, true);
    assert_eq!(other, "aXc");
    assert_eq!(ws.cursor_offset(), 2);
    assert_eq!(ws.selection(), Some(0..1));
}

#[test]
fn an_edit_of_the_main_document_from_an_inactive_editor() {
    let mut ws = EditorWorkspace::new("hello".to_string());
    ws.apply_editor_action(EditorAction::MoveCursor { new_cursor: 3 });
    let edit = EditorAction::Edit { range: 0..1, replacement: "J".to_string(), new_cursor: 1, new_selection: None };
    ws.apply_editor_action_for_main(edit, true, false);
    assert_eq!(ws.text(), "Jello");
    assert_eq!(ws.cursor_offset(), 3);
    ws.undo();
    assert_eq!(ws.text(), "hello");
    assert_eq!(ws.cursor_offset(), 0);
}
