use typst_writer::benchmark::generate_complex_document;
use typst_writer::compiler::{hash_text_regions, CompileOutcome, CompilerManager};
use typst_writer::config::{default_max_log_lines, default_true};
use typst_writer::editor::context::cursor_context;
use typst_writer::editor::offset::{find_common_prefix_suffix, map_offset_between_texts};
use typst_writer::fonts::{
    find_table, font_label_bytes, patch_font_family_safe, postscript_name, read_postscript_name, NameRecord,
};
use typst_writer::keys::{
    clipboard_copy_range, clipboard_cut_action, clipboard_paste_action, navigation_action, text_input_action,
    wysiwyg_key_event,
};
use typst_writer::math::common::is_math_placeholder;
use typst_writer::math::deletion::handle_math_selection_deletion;
use typst_writer::math::fields::{
    find_math_attachment_ranges, find_math_group_range, find_math_subfield_range, intercept_math_deletion,
};
use typst_writer::math::walk::{is_semantic, walk_ast};
use typst_writer::syntax::nav::Side;
use typst_writer::syntax::{Document, NodeKind};
use typst_writer::{EditorAction, EditorContext, EditorState, EditorWorkspace, UndoEntry, UndoManager};

// ---------------------------------------------------------------------------
// Caret walking
// ---------------------------------------------------------------------------

#[test]
fn walk_steps_through_text_one_character_at_a_time() {
    let doc = Document::detached("ab");
    assert_eq!(walk_ast(&doc, 0, "right"), Some(1));
    assert_eq!(walk_ast(&doc, 1, "right"), Some(2));
    assert_eq!(walk_ast(&doc, 2, "right"), None);
    assert_eq!(walk_ast(&doc, 2, "left"), Some(1));
    assert_eq!(walk_ast(&doc, 1, "left"), Some(0));
    assert_eq!(walk_ast(&doc, 0, "left"), None);
}

#[test]
fn walk_skips_spaces_in_math() {
    let doc = Document::detached("$x + y$");
    // From after `x`, moving right skips the space and stops before `+`.
    assert_eq!(walk_ast(&doc, 2, "right"), Some(3));
    // From before `+`, moving left skips the space and stops after `x`.
    assert_eq!(walk_ast(&doc, 3, "left"), Some(2));
    // Any direction other than "right" moves left.
    assert_eq!(walk_ast(&doc, 3, "up"), Some(2));
}

#[test]
fn walk_past_the_end_goes_to_the_text_boundary() {
    let doc = Document::detached("ab");
    assert_eq!(walk_ast(&doc, 7, "left"), Some(0));
    assert_eq!(walk_ast(&doc, 7, "right"), None);
    let empty = Document::detached("");
    assert_eq!(walk_ast(&empty, 0, "right"), None);
    assert_eq!(walk_ast(&empty, 0, "left"), None);
}

#[test]
fn spaces_are_not_semantic_but_markup_is() {
    let doc = Document::detached("$x + y$");
    let tree = doc.tree();
    assert!(is_semantic(tree, doc.text()));
    let space = tree.leaf_at(2, Side::After).unwrap();
    let node = tree.node_at(&space);
    assert_eq!(node.kind, NodeKind::Space);
    assert!(!is_semantic(node, doc.text()));
}

// ---------------------------------------------------------------------------
// Caret context and placeholders
// ---------------------------------------------------------------------------

#[test]
fn caret_context_follows_the_nearest_container() {
    assert_eq!(cursor_context(&Document::detached("$x$"), 2), Some(EditorContext::Math));
    assert_eq!(cursor_context(&Document::detached("hello"), 3), Some(EditorContext::Markup));
    assert_eq!(cursor_context(&Document::detached("#{1}"), 3), Some(EditorContext::Code));
    assert_eq!(cursor_context(&Document::detached(""), 0), Some(EditorContext::Markup));
    // The caret is clamped to the end of the text.
    assert_eq!(cursor_context(&Document::detached("$x$"), 100), Some(EditorContext::Math));
}

#[test]
fn question_mark_is_a_placeholder_only_in_math() {
    let math = Document::detached("$?$");
    let path = math.tree().leaf_at(2, Side::Before).unwrap();
    assert!(is_math_placeholder(&math, &path));
    let markup = Document::detached("?");
    let path = markup.tree().leaf_at(1, Side::Before).unwrap();
    assert!(!is_math_placeholder(&markup, &path));
}

#[test]
fn group_ranges_of_placeholders_identifiers_and_attachments() {
    assert_eq!(find_math_group_range(&Document::detached("$?$"), 1), Some(1..2));
    assert_eq!(find_math_group_range(&Document::detached("$sum$"), 2), Some(1..4));
    assert_eq!(find_math_group_range(&Document::detached("$a^b$"), 3), Some(3..4));
    assert_eq!(find_math_group_range(&Document::detached("$x$"), 2), None);
}

#[test]
fn parsing_builds_the_typst_tree() {
    let doc = Document::detached("$x$");
    let root = doc.tree();
    assert_eq!(root.kind, NodeKind::Markup);
    assert_eq!(root.children.len(), 1);
    assert_eq!(root.children[0].kind, NodeKind::Equation);
    assert_eq!(root.children[0].children.len(), 3);
    assert_eq!(root.children[0].children[1].kind, NodeKind::Math);
}

// ---------------------------------------------------------------------------
// Text input
// ---------------------------------------------------------------------------

fn markup_state<'a>(text: &'a str, cursor: usize, selection: Option<std::ops::Range<usize>>) -> EditorState<'a> {
    EditorState { text, cursor, selection, context: EditorContext::Markup }
}

#[test]
fn composition_replaces_the_composed_text() {
    let doc = Document::detached("abc");
    let state = markup_state(doc.text(), 1, None);
    assert_eq!(
        text_input_action(&doc, &state, Some((1, 2)), "xyz"),
        EditorAction::Edit { range: 1..3, replacement: "xyz".to_string(), new_cursor: 4, new_selection: None }
    );
}

#[test]
fn pasted_text_replaces_the_ordered_selection() {
    let doc = Document::detached("abcdef");
    let state = markup_state(doc.text(), 3, Some(4..1));
    assert_eq!(
        text_input_action(&doc, &state, None, "xy"),
        EditorAction::Edit { range: 1..4, replacement: "xy".to_string(), new_cursor: 3, new_selection: None }
    );
    let caret = markup_state(doc.text(), 2, None);
    assert_eq!(
        text_input_action(&doc, &caret, None, "é!"),
        EditorAction::Edit { range: 2..2, replacement: "é!".to_string(), new_cursor: 5, new_selection: None }
    );
}

#[test]
fn a_single_character_goes_through_key_handling() {
    let doc = Document::detached("$sqrt(?)$");
    let state = EditorState { text: doc.text(), cursor: 6, selection: None, context: EditorContext::Math };
    let typed = text_input_action(&doc, &state, None, "2");
    assert_eq!(typed, wysiwyg_key_event(&doc, &state, "2", false));
    assert_eq!(
        typed,
        EditorAction::Edit { range: 6..7, replacement: "2".to_string(), new_cursor: 7, new_selection: None }
    );
}

// ---------------------------------------------------------------------------
// Offsets
// ---------------------------------------------------------------------------

#[test]
fn common_prefix_and_suffix() {
    assert_eq!(find_common_prefix_suffix("hello world", "hello brave world"), (6, 5));
    assert_eq!(find_common_prefix_suffix("abc", "abc"), (3, 0));
    assert_eq!(find_common_prefix_suffix("", "xyz"), (0, 0));
    assert_eq!(find_common_prefix_suffix("aXXb", "aYb"), (1, 1));
}

#[test]
fn offsets_follow_the_text_around_an_edit() {
    assert_eq!(map_offset_between_texts("hello world", "hello brave world", 8), 14);
    assert_eq!(map_offset_between_texts("hello world", "hello brave world", 3), 3);
    assert_eq!(map_offset_between_texts("abXYZcd", "abQcd", 4), 3);
    assert_eq!(map_offset_between_texts("aXXb", "aYb", 2), 2);
    assert_eq!(map_offset_between_texts("same", "same", 2), 2);
}

// ---------------------------------------------------------------------------
// Undo history and the editing core
// ---------------------------------------------------------------------------

fn entry(start: usize, old_text: &str, new_text: &str) -> UndoEntry {
    UndoEntry {
        range: start..start + old_text.len(),
        old_text: old_text.to_string(),
        new_text: new_text.to_string(),
        old_cursor: start,
        new_cursor: start + new_text.len(),
        old_selection: None,
        new_selection: None,
    }
}

#[test]
fn undo_hands_back_the_last_edit_and_redo_reverses_it() {
    let mut m = UndoManager::new(10);
    assert!(m.undo().is_none());
    m.push(entry(0, "", "a"));
    m.push(entry(1, "", "b"));
    let u = m.undo().unwrap();
    assert_eq!(u.new_text, "b");
    let r = m.redo().unwrap();
    assert_eq!(r.new_text, "b");
    assert!(m.redo().is_none());
    assert_eq!(m.undo().unwrap().new_text, "b");
    assert_eq!(m.undo().unwrap().new_text, "a");
    assert!(m.undo().is_none());
}

#[test]
fn recording_an_edit_discards_the_redo_stack() {
    let mut m = UndoManager::new(10);
    m.push(entry(0, "", "a"));
    m.undo().unwrap();
    m.push(entry(0, "", "c"));
    assert!(m.redo().is_none());
    assert_eq!(m.undo().unwrap().new_text, "c");
    assert!(m.undo().is_none());
}

#[test]
fn the_history_drops_its_oldest_entries() {
    let mut m = UndoManager::new(2);
    m.push(entry(0, "", "a"));
    m.push(entry(1, "", "b"));
    m.push(entry(2, "", "c"));
    assert_eq!(m.undo().unwrap().new_text, "c");
    assert_eq!(m.undo().unwrap().new_text, "b");
    assert!(m.undo().is_none());
    let mut none = UndoManager::new(0);
    none.push(entry(0, "", "a"));
    assert!(none.undo().is_none());
}

#[test]
fn undo_restores_the_text_caret_and_selection() {
    let mut ws = EditorWorkspace::new("hello world".to_string());
    let edit = EditorAction::Edit {
        range: 6..11,
        replacement: "brave".to_string(),
        new_cursor: 11,
        new_selection: Some(6..11),
    };
    assert!(ws.can_apply(&edit));
    ws.apply_editor_action(edit);
    assert_eq!(ws.text(), "hello brave");
    assert_eq!(ws.cursor_offset(), 11);
    assert_eq!(ws.selection(), Some(6..11));

    assert!(ws.can_undo());
    ws.undo();
    assert_eq!(ws.text(), "hello world");
    assert_eq!(ws.cursor_offset(), 0);
    assert_eq!(ws.selection(), None);

    assert!(ws.can_redo());
    ws.redo();
    assert_eq!(ws.text(), "hello brave");
    assert_eq!(ws.cursor_offset(), 11);
    assert_eq!(ws.selection(), Some(6..11));
}

#[test]
fn undo_of_an_insertion_removes_exactly_the_inserted_text() {
    let mut ws = EditorWorkspace::new("añb".to_string());
    ws.apply_editor_action(EditorAction::Edit {
        range: 3..3,
        replacement: "ßß".to_string(),
        new_cursor: 7,
        new_selection: None,
    });
    assert_eq!(ws.text(), "añßßb");
    ws.undo();
    assert_eq!(ws.text(), "añb");
}

#[test]
fn selections_and_caret_moves() {
    let mut ws = EditorWorkspace::new("abcdef".to_string());
    ws.apply_editor_action(EditorAction::Select { range: 2..5, reversed: true });
    assert_eq!(ws.cursor_offset(), 2);
    assert_eq!(ws.selection(), Some(2..5));
    ws.apply_editor_action(EditorAction::Select { range: 1..3, reversed: false });
    assert_eq!(ws.cursor_offset(), 3);
    ws.apply_editor_action(EditorAction::MoveCursor { new_cursor: 4 });
    assert_eq!(ws.cursor_offset(), 4);
    assert_eq!(ws.selection(), None);
    ws.apply_editor_action(EditorAction::NoAction);
    assert_eq!(ws.cursor_offset(), 4);
    assert_eq!(ws.text(), "abcdef");
}

#[test]
fn edits_must_fall_on_character_boundaries() {
    let ws = EditorWorkspace::new("héllo".to_string());
    let inside = EditorAction::Edit { range: 2..3, replacement: String::new(), new_cursor: 2, new_selection: None };
    assert!(!ws.can_apply(&inside));
    let beyond = EditorAction::Edit { range: 4..9, replacement: String::new(), new_cursor: 4, new_selection: None };
    assert!(!ws.can_apply(&beyond));
    let fine = EditorAction::Edit { range: 1..3, replacement: String::new(), new_cursor: 1, new_selection: None };
    assert!(ws.can_apply(&fine));
}

#[test]
fn virtual_actions_are_not_recorded() {
    let mut ws = EditorWorkspace::new("abc".to_string());
    ws.apply_virtual_editor_action(EditorAction::Edit {
        range: 0..0,
        replacement: "x".to_string(),
        new_cursor: 1,
        new_selection: None,
    });
    assert_eq!(ws.text(), "xabc");
    assert!(ws.can_undo());
    ws.undo();
    assert_eq!(ws.text(), "xabc");
    assert_eq!(ws.cursor_offset(), 1);
}

// ---------------------------------------------------------------------------
// Compilation bookkeeping
// ---------------------------------------------------------------------------

#[test]
fn fnv_hash_of_regions() {
    assert_eq!(hash_text_regions("abc", &[]), 14695981039346656037);
    assert_eq!(hash_text_regions("abc", &[0..1]), 0xaf63dc4c8601ec8c);
    // A region that does not slice the text is skipped.
    assert_eq!(hash_text_regions("abc", &[2..9]), 14695981039346656037);
    assert_eq!(hash_text_regions("abc", &[0..1, 2..9]), 0xaf63dc4c8601ec8c);
}

#[test]
fn compile_requests_during_a_compilation_are_queued() {
    let mut cm = CompilerManager::new();
    assert!(cm.begin_compile());
    assert!(!cm.begin_compile());
    assert!(cm.needs_recompile);
    let again = cm.finish_compile(CompileOutcome::Failure { first_message: Some("unknown variable".to_string()) });
    assert!(again);
    assert!(!cm.is_compiling);
    assert_eq!(cm.error_message, Some("unknown variable".to_string()));
    assert_eq!(cm.document_version, 0);

    assert!(cm.begin_compile());
    assert!(!cm.needs_recompile);
    let again = cm.finish_compile(CompileOutcome::Success { source: Document::detached("= Title\n") });
    assert!(!again);
    assert_eq!(cm.document_version, 1);
    assert_eq!(cm.error_message, None);
    assert!(!cm.structural_ranges.is_empty());
}

// ---------------------------------------------------------------------------
// Settings and the benchmark document
// ---------------------------------------------------------------------------

#[test]
fn settings_defaults() {
    assert_eq!(default_max_log_lines(), 1000);
    assert!(default_true());
}

#[test]
fn the_benchmark_document_grows_by_whole_chapters() {
    let title = "= Premium Monolithic Benchmark Document\n\n";
    assert_eq!(generate_complex_document(0), title);
    assert_eq!(generate_complex_document(10), title);

    let doc = generate_complex_document(100);
    assert!(doc.starts_with(title));
    assert!(doc.contains("== Chapter 1: Mathematical Mechanics & Algebraic Topology\n\n"));
    assert!(!doc.contains("== Chapter 2:"));
    assert!(doc.ends_with("#pagebreak()\n"));
    assert_eq!(doc.matches("$ A = mat(1, 2; 3, 4) $").count(), 12);

    let big = generate_complex_document(20 * 1024);
    assert!(big.len() >= 20 * 1024);
    let last = big.rfind("== Chapter ").unwrap();
    assert!(last < 20 * 1024);
    let chapters = big.matches("#pagebreak()").count();
    assert!(big.contains(&format!("== Chapter {}: ", chapters)));
}

// ---------------------------------------------------------------------------
// Font renaming
// ---------------------------------------------------------------------------

fn be32(v: u32) -> [u8; 4] {
    v.to_be_bytes()
}

fn put16(d: &mut [u8], at: usize, v: u16) {
    d[at..at + 2].copy_from_slice(&v.to_be_bytes());
}

/// A TrueType file with one `name` table holding a Windows family name
/// (`name_len` bytes of UTF-16) and a Macintosh full name ("MacName!").
fn sample_font(name_len: u16) -> Vec<u8> {
    let storage_len = name_len as usize + 8;
    let mut d = vec![0u8; 58 + storage_len];
    d[0..4].copy_from_slice(&[0, 1, 0, 0]);
    put16(&mut d, 4, 1);
    d[12..16].copy_from_slice(b"name");
    d[20..24].copy_from_slice(&be32(28));
    d[24..28].copy_from_slice(&be32((30 + storage_len) as u32));
    put16(&mut d, 30, 2);
    put16(&mut d, 32, 30);
    // Record 0: Windows, family name.
    put16(&mut d, 34, 3);
    put16(&mut d, 36, 1);
    put16(&mut d, 38, 0x409);
    put16(&mut d, 40, 1);
    put16(&mut d, 42, name_len);
    put16(&mut d, 44, 0);
    // Record 1: Macintosh, full name.
    put16(&mut d, 46, 1);
    put16(&mut d, 52, 4);
    put16(&mut d, 54, 8);
    put16(&mut d, 56, name_len);
    for i in 0..name_len as usize / 2 {
        d[58 + 2 * i + 1] = b'a' + i as u8;
    }
    d[58 + name_len as usize..].copy_from_slice(b"MacName!");
    d
}

fn table_checksum(d: &[u8], start: usize, len: usize) -> u32 {
    let mut sum = 0u32;
    let mut i = 0;
    while i < len {
        let b = |k: usize| d.get(start + i + k).copied().unwrap_or(0);
        sum = sum.wrapping_add(u32::from_be_bytes([b(0), b(1), b(2), b(3)]));
        i += 4;
    }
    sum
}

#[test]
fn generated_family_labels() {
    assert_eq!(font_label_bytes(7), b"TF0007".to_vec());
    assert_eq!(font_label_bytes(0), b"TF0000".to_vec());
    assert_eq!(font_label_bytes(1234), b"TF1234".to_vec());
    assert_eq!(font_label_bytes(12345), b"TF12345".to_vec());
    assert_eq!(font_label_bytes(u32::MAX), b"TF4294967295".to_vec());
}

#[test]
fn finding_the_name_table() {
    let d = sample_font(12);
    assert_eq!(find_table(&d, 0, b"name"), Some((12, 28, 50)));
    assert_eq!(find_table(&d, 0, b"head"), None);
    assert_eq!(find_table(&d, 70, b"name"), None);
}

#[test]
fn family_names_are_overwritten_and_the_checksum_updated() {
    let mut d = sample_font(12);
    let before = d.clone();
    patch_font_family_safe(&mut d, 7, 0);
    assert_eq!(d.len(), before.len());
    assert_eq!(&d[58..70], &[0, b'T', 0, b'F', 0, b'0', 0, b'0', 0, b'0', 0, b'7']);
    assert_eq!(&d[70..78], b"TF0007XX");
    assert_eq!(&d[16..20], &table_checksum(&d, 28, 50).to_be_bytes());
    // Everything but the strings and the checksum is unchanged.
    assert_eq!(&d[..16], &before[..16]);
    assert_eq!(&d[20..58], &before[20..58]);
}

#[test]
fn longer_names_are_padded_with_x() {
    let mut d = sample_font(16);
    patch_font_family_safe(&mut d, 42, 0);
    let expected: Vec<u8> = "TF0042XX".bytes().flat_map(|c| [0, c]).collect();
    assert_eq!(&d[58..74], expected.as_slice());
}

#[test]
fn names_too_short_for_the_label_are_invalidated() {
    let mut d = sample_font(4);
    let before = d.clone();
    patch_font_family_safe(&mut d, 7, 0);
    assert_eq!(&d[40..42], &[0xff, 0xff]);
    assert_eq!(&d[58..62], &before[58..62]);
    assert_eq!(&d[62..70], b"TF0007XX");
}

#[test]
fn collections_bring_the_chosen_face_first() {
    let mut d = vec![0u8; 52];
    d[0..4].copy_from_slice(b"ttcf");
    d[8..12].copy_from_slice(&be32(2));
    d[12..16].copy_from_slice(&be32(20));
    d[16..20].copy_from_slice(&be32(40));
    let original = d.clone();

    patch_font_family_safe(&mut d, 1, 1);
    assert_eq!(&d[12..16], &be32(40));
    assert_eq!(&d[16..20], &be32(20));
    assert_eq!(&d[20..], &original[20..]);

    let mut e = original.clone();
    patch_font_family_safe(&mut e, 1, 2);
    assert_eq!(e, original);

    let mut short = b"ttcf".to_vec();
    patch_font_family_safe(&mut short, 1, 0);
    assert_eq!(short, b"ttcf".to_vec());
}

fn utf16_be(s: &str) -> Vec<u8> {
    s.encode_utf16().flat_map(|u| u.to_be_bytes()).collect()
}

/// A minimal TrueType file (head, hhea, maxp and name tables) whose name
/// table holds the given Windows Unicode records.
fn minimal_font(names: &[(u16, &str)]) -> Vec<u8> {
    let mut head = vec![0u8; 54];
    head[0..4].copy_from_slice(&[0, 1, 0, 0]);
    head[12..16].copy_from_slice(&0x5F0F3CF5u32.to_be_bytes());
    head[18..20].copy_from_slice(&1000u16.to_be_bytes());
    let mut hhea = vec![0u8; 36];
    hhea[0..4].copy_from_slice(&[0, 1, 0, 0]);
    hhea[34..36].copy_from_slice(&1u16.to_be_bytes());
    let maxp = vec![0u8, 0, 0x50, 0, 0, 1];
    let mut name = Vec::new();
    name.extend_from_slice(&0u16.to_be_bytes());
    name.extend_from_slice(&(names.len() as u16).to_be_bytes());
    name.extend_from_slice(&(6 + 12 * names.len() as u16).to_be_bytes());
    let mut storage = Vec::new();
    for (id, text) in names {
        let bytes = utf16_be(text);
        for v in [3u16, 1, 0x409, *id, bytes.len() as u16, storage.len() as u16] {
            name.extend_from_slice(&v.to_be_bytes());
        }
        storage.extend_from_slice(&bytes);
    }
    name.extend_from_slice(&storage);

    let tables: [(&[u8; 4], Vec<u8>); 4] = [(b"head", head), (b"hhea", hhea), (b"maxp", maxp), (b"name", name)];
    let mut d = vec![0u8; 12 + 16 * tables.len()];
    d[0..4].copy_from_slice(&[0, 1, 0, 0]);
    d[4..6].copy_from_slice(&(tables.len() as u16).to_be_bytes());
    for (i, (tag, data)) in tables.iter().enumerate() {
        let rec = 12 + 16 * i;
        let offset = d.len() as u32;
        d[rec..rec + 4].copy_from_slice(*tag);
        d[rec + 8..rec + 12].copy_from_slice(&offset.to_be_bytes());
        d[rec + 12..rec + 16].copy_from_slice(&(data.len() as u32).to_be_bytes());
        d.extend_from_slice(data);
    }
    d
}

#[test]
fn postscript_name_from_family_and_subfamily() {
    let font = minimal_font(&[(1, "Fam"), (2, "Bold")]);
    assert_eq!(read_postscript_name(&font, 0), Some("Fam-Bold".to_string()));
    let font = minimal_font(&[(1, "Fam")]);
    assert_eq!(read_postscript_name(&font, 0), Some("Fam".to_string()));
}

#[test]
fn postscript_name_record_wins() {
    let font = minimal_font(&[(1, "Fam"), (6, "FamPS-Bold"), (2, "Bold")]);
    assert_eq!(read_postscript_name(&font, 0), Some("FamPS-Bold".to_string()));
}

#[test]
fn data_that_is_not_a_font_has_no_name() {
    assert_eq!(read_postscript_name(b"not a font at all", 0), None);
    let font = minimal_font(&[(1, "Fam")]);
    assert_eq!(read_postscript_name(&font, 1), None);
}

#[test]
fn later_records_override_earlier_ones() {
    let records = vec![
        NameRecord { name_id: 1, text: Some("A".to_string()) },
        NameRecord { name_id: 1, text: Some("B".to_string()) },
        NameRecord { name_id: 2, text: None },
        NameRecord { name_id: 2, text: Some("Italic".to_string()) },
        NameRecord { name_id: 6, text: None },
    ];
    assert_eq!(postscript_name(&records), "B-Italic");
    assert_eq!(postscript_name(&Vec::new()), "");
}

#[test]
fn typing_before_spaced_placeholder_fills_it() {
    let doc = Document::detached("$sqrt( ?)$");
    let state = EditorState { text: doc.text(), cursor: 6, selection: None, context: EditorContext::Math };
    assert_eq!(
        wysiwyg_key_event(&doc, &state, "2", false),
        EditorAction::Edit { range: 7..8, replacement: "2".to_string(), new_cursor: 8, new_selection: None }
    );
}

#[test]
fn subfields_are_fractions_roots_and_attachment_groups() {
    assert_eq!(find_math_subfield_range(&Document::detached("$a/b$"), 2), Some(1..4));
    assert_eq!(find_math_subfield_range(&Document::detached("$√x$"), 5), Some(1..5));
    // A call such as `sqrt(x)` is not a sub-field.
    assert_eq!(find_math_subfield_range(&Document::detached("$sqrt(x)$"), 7), None);
    assert_eq!(find_math_subfield_range(&Document::detached("$x$"), 2), None);
}

#[test]
fn attachment_values_come_with_their_operator() {
    let doc = Document::detached("$a_b$");
    assert_eq!(find_math_attachment_ranges(&doc, 4), Some((2..4, 3..4)));
    assert_eq!(find_math_attachment_ranges(&Document::detached("$x$"), 2), None);
}

#[test]
fn deleting_the_base_or_operator_of_an_attachment_is_intercepted() {
    let doc = Document::detached("$a_b$");
    // Deleting the base selects the whole attachment.
    assert_eq!(intercept_math_deletion(&doc, 1..2), Some(1..4));
    // Deleting the operator selects the value.
    assert_eq!(intercept_math_deletion(&doc, 2..3), Some(3..4));
    // Plain text is not intercepted.
    assert_eq!(intercept_math_deletion(&Document::detached("ab"), 0..1), None);
}

#[test]
fn deleting_a_selected_structure_removes_it() {
    let doc = Document::detached("$root(?,?)$");
    assert_eq!(
        handle_math_selection_deletion(&doc, doc.text(), 1, 10, true),
        Some(EditorAction::Edit { range: 1..10, replacement: String::new(), new_cursor: 1, new_selection: None })
    );
}

#[test]
fn shift_navigation_extends_from_the_anchor() {
    assert_eq!(navigation_action(5, &None, 8, false), EditorAction::MoveCursor { new_cursor: 8 });
    assert_eq!(navigation_action(5, &None, 8, true), EditorAction::Select { range: 5..8, reversed: false });
    assert_eq!(navigation_action(5, &None, 2, true), EditorAction::Select { range: 2..5, reversed: true });
    // The caret is at the start of the selection, so its end is the anchor.
    assert_eq!(navigation_action(3, &Some(3..9), 12, true), EditorAction::Select { range: 9..12, reversed: false });
    assert_eq!(navigation_action(9, &Some(3..9), 1, true), EditorAction::Select { range: 1..3, reversed: true });
}

#[test]
fn copying_widens_the_selection_to_whole_characters() {
    assert_eq!(clipboard_copy_range("héllo", &Some(4..2)), Some(1..4));
    assert_eq!(clipboard_copy_range("héllo", &Some(3..100)), Some(3..6));
    assert_eq!(clipboard_copy_range("héllo", &Some(3..3)), None);
    assert_eq!(clipboard_copy_range("héllo", &None), None);
    assert_eq!(clipboard_copy_range("abc", &Some(7..9)), None);
}

#[test]
fn cutting_deletes_the_copied_range() {
    assert_eq!(
        clipboard_cut_action("abcdef", &Some(4..1)),
        Some((1..4, EditorAction::Edit { range: 1..4, replacement: String::new(), new_cursor: 1, new_selection: None }))
    );
    assert_eq!(clipboard_cut_action("abcdef", &None), None);
}

#[test]
fn pasting_replaces_the_selection_or_inserts_at_the_caret() {
    assert_eq!(
        clipboard_paste_action("abc", 1, &None, "XY"),
        EditorAction::Edit { range: 1..1, replacement: "XY".to_string(), new_cursor: 3, new_selection: None }
    );
    assert_eq!(
        clipboard_paste_action("abc", 1, &Some(3..0), "XY"),
        EditorAction::Edit { range: 0..3, replacement: "XY".to_string(), new_cursor: 2, new_selection: None }
    );
    assert_eq!(
        clipboard_paste_action("abc", 10, &None, "XY"),
        EditorAction::Edit { range: 3..3, replacement: "XY".to_string(), new_cursor: 5, new_selection: None }
    );
    assert_eq!(
        clipboard_paste_action("héllo", 2, &None, "!"),
        EditorAction::Edit { range: 1..3, replacement: "!".to_string(), new_cursor: 2, new_selection: None }
    );
}
