use lazycard::editor::{CursorMove, EditKey, TextEditor};
use lazycard::render::{Cell, CellStyle};

fn editor_with(text: &str, width: usize, height: usize) -> TextEditor {
    let mut ed = TextEditor::new();
    ed.load(text);
    ed.resize(width, height);
    ed
}

fn styles(row: &[Cell]) -> String {
    row.iter()
        .map(|c| match c.style {
            CellStyle::Normal => 'n',
            CellStyle::Selected => 's',
            CellStyle::Cursor => 'c',
        })
        .collect()
}

#[test]
fn select_all_then_type_replaces_everything() {
    let mut ed = editor_with("abc", 10, 5);
    ed.select_all();
    assert_eq!(ed.selection(), Some((0, 3)));
    ed.push_str("x");
    assert_eq!(ed.contents(), "x");
    assert_eq!(ed.cursor(), 1);
    assert_eq!(ed.selection(), None);
}

#[test]
fn select_all_via_ctrl_a_then_char_key() {
    let mut ed = editor_with("abc", 10, 5);
    ed.input(EditKey::Char('a'), false, true);
    ed.input(EditKey::Char('x'), false, false);
    assert_eq!(ed.contents(), "x");
    assert_eq!(ed.cursor(), 1);
}

#[test]
fn forward_then_back_returns_to_the_same_place() {
    let text = "aé世\nb";
    let mut ed = editor_with(text, 3, 5);
    let mut positions = vec![ed.cursor()];
    for _ in 0..5 {
        ed.move_cursor(CursorMove::Forward, false);
        positions.push(ed.cursor());
    }
    assert_eq!(positions, vec![0, 1, 3, 6, 7, 8]);
    for start in 0..5 {
        let mut ed = editor_with(text, 3, 5);
        for _ in 0..start {
            ed.move_cursor(CursorMove::Forward, false);
        }
        let p = ed.cursor();
        ed.move_cursor(CursorMove::Forward, false);
        ed.move_cursor(CursorMove::Back, false);
        assert_eq!(ed.cursor(), p);
    }
}

#[test]
fn moves_at_the_ends_do_nothing() {
    let mut ed = editor_with("ab", 10, 5);
    ed.move_cursor(CursorMove::Back, false);
    assert_eq!(ed.cursor(), 0);
    ed.move_cursor(CursorMove::End, false);
    assert_eq!(ed.cursor(), 2);
    ed.move_cursor(CursorMove::Forward, false);
    assert_eq!(ed.cursor(), 2);
}

#[test]
fn deleting_a_selection_then_retyping_it_restores_the_text() {
    let text = "hello wörld";
    let mut ed = editor_with(text, 20, 5);
    for _ in 0..2 {
        ed.move_cursor(CursorMove::Forward, false);
    }
    for _ in 0..6 {
        ed.move_cursor(CursorMove::Forward, true);
    }
    let (s, e) = ed.selection().unwrap();
    assert_eq!((s, e), (2, 9));
    let selected = text[s..e].to_string();
    ed.delete_back();
    assert_eq!(ed.contents(), "herld");
    assert_eq!(ed.cursor(), s);
    ed.push_str(&selected);
    assert_eq!(ed.contents(), text);
}

#[test]
fn backward_selection_is_deleted_from_its_start() {
    let mut ed = editor_with("abcdef", 20, 5);
    ed.move_cursor(CursorMove::End, false);
    ed.move_cursor(CursorMove::Back, true);
    ed.move_cursor(CursorMove::Back, true);
    assert_eq!(ed.selection(), Some((4, 6)));
    ed.delete_forward();
    assert_eq!(ed.contents(), "abcd");
    assert_eq!(ed.cursor(), 4);
}

#[test]
fn selection_collapses_when_the_cursor_returns_to_the_anchor() {
    let mut ed = editor_with("abc", 10, 5);
    ed.move_cursor(CursorMove::Forward, true);
    assert_eq!(ed.selection(), Some((0, 1)));
    ed.move_cursor(CursorMove::Back, true);
    assert_eq!(ed.selection(), None);
    ed.move_cursor(CursorMove::Forward, true);
    ed.move_cursor(CursorMove::Forward, false);
    assert_eq!(ed.selection(), None);
    assert_eq!(ed.cursor(), 2);
}

#[test]
fn select_all_on_empty_text_selects_nothing() {
    let mut ed = editor_with("", 10, 5);
    ed.select_all();
    assert_eq!(ed.selection(), None);
    assert_eq!(ed.cursor(), 0);
}

#[test]
fn backspace_and_delete_remove_one_character() {
    let mut ed = editor_with("aéb", 10, 5);
    ed.move_cursor(CursorMove::Forward, false);
    ed.move_cursor(CursorMove::Forward, false);
    assert_eq!(ed.cursor(), 3);
    ed.delete_back();
    assert_eq!(ed.contents(), "ab");
    assert_eq!(ed.cursor(), 1);
    ed.delete_forward();
    assert_eq!(ed.contents(), "a");
    assert_eq!(ed.cursor(), 1);
    ed.delete_forward();
    assert_eq!(ed.contents(), "a");
    ed.move_cursor(CursorMove::Start, false);
    ed.delete_back();
    assert_eq!(ed.contents(), "a");
    assert_eq!(ed.cursor(), 0);
}

#[test]
fn keys_edit_the_text() {
    let mut ed = editor_with("", 10, 5);
    ed.input(EditKey::Char('h'), false, false);
    ed.input(EditKey::Char('i'), false, false);
    ed.input(EditKey::Enter, false, false);
    ed.input(EditKey::Char('a'), false, false);
    assert_eq!(ed.contents(), "hi\na");
    ed.input(EditKey::Backspace, false, false);
    ed.input(EditKey::Left, false, false);
    ed.input(EditKey::Delete, false, false);
    assert_eq!(ed.contents(), "hi");
    ed.input(EditKey::Home, true, false);
    assert_eq!(ed.selection(), Some((0, 2)));
    ed.input(EditKey::Other, false, false);
    assert_eq!(ed.selection(), Some((0, 2)));
    ed.input(EditKey::Right, false, false);
    assert_eq!(ed.selection(), None);
    assert_eq!(ed.cursor(), 1);
}

#[test]
fn up_and_down_keep_the_display_column() {
    let mut ed = editor_with("abcd\nef\nghij", 10, 5);
    for _ in 0..3 {
        ed.move_cursor(CursorMove::Forward, false);
    }
    ed.move_cursor(CursorMove::Down, false);
    assert_eq!(ed.cursor(), 7);
    ed.move_cursor(CursorMove::Down, false);
    assert_eq!(ed.cursor(), 10);
    ed.move_cursor(CursorMove::Up, false);
    assert_eq!(ed.cursor(), 7);
    ed.move_cursor(CursorMove::Up, false);
    assert_eq!(ed.cursor(), 2);
    ed.move_cursor(CursorMove::Up, false);
    assert_eq!(ed.cursor(), 0);
    ed.move_cursor(CursorMove::Forward, false);
    ed.move_cursor(CursorMove::Down, false);
    ed.move_cursor(CursorMove::Down, false);
    ed.move_cursor(CursorMove::Down, false);
    assert_eq!(ed.cursor(), 12);
}

#[test]
fn up_and_down_follow_visual_rows() {
    let mut ed = editor_with("hello world", 5, 5);
    for _ in 0..2 {
        ed.move_cursor(CursorMove::Forward, false);
    }
    ed.move_cursor(CursorMove::Down, false);
    assert_eq!(ed.cursor(), 7);
    ed.move_cursor(CursorMove::Down, true);
    assert_eq!(ed.cursor(), 11);
    assert_eq!(ed.selection(), Some((7, 11)));
}

#[test]
fn up_over_wide_characters_uses_display_columns() {
    let mut ed = editor_with("世界x\nabcde", 10, 5);
    ed.move_cursor(CursorMove::End, false);
    ed.move_cursor(CursorMove::Back, false);
    ed.move_cursor(CursorMove::Back, false);
    // cursor before 'd', display column 3
    ed.move_cursor(CursorMove::Up, false);
    assert_eq!(ed.cursor(), 6);
}

#[test]
fn scrolling_keeps_the_cursor_row_visible() {
    let text = "0\n1\n2\n3\n4\n5\n6\n7\n8\n9";
    let mut ed = editor_with(text, 10, 3);
    let height = 3;
    let mut rows_seen = Vec::new();
    for step in 0..25 {
        let mv = if step < 12 { CursorMove::Down } else { CursorMove::Up };
        ed.move_cursor(mv, false);
        ed.render(10, height);
        let row = ed.layout().cursor_row;
        let top = ed.scroll_offset();
        assert!(top <= row && row < top + height, "step {}", step);
        rows_seen.push(top);
    }
    assert_eq!(rows_seen[0], 0);
    assert_eq!(rows_seen[3], 2);
    assert_eq!(*rows_seen.last().unwrap(), 0);
}

#[test]
fn render_styles_cursor_and_selection() {
    let mut ed = editor_with("abcd", 10, 2);
    ed.move_cursor(CursorMove::Forward, false);
    ed.move_cursor(CursorMove::Forward, true);
    ed.move_cursor(CursorMove::Forward, true);
    let rows = ed.render(10, 2);
    assert_eq!(rows.len(), 1);
    let chars: String = rows[0].iter().map(|c| c.ch).collect();
    assert_eq!(chars, "abcd");
    assert_eq!(styles(&rows[0]), "nssc");
}

#[test]
fn render_marks_a_selected_newline_and_the_end_cursor() {
    let mut ed = editor_with("ab\ncd", 10, 5);
    ed.move_cursor(CursorMove::Forward, false);
    ed.move_cursor(CursorMove::End, true);
    let rows = ed.render(10, 5);
    assert_eq!(rows.len(), 2);
    assert_eq!(rows[0].iter().map(|c| c.ch).collect::<String>(), "ab ");
    assert_eq!(styles(&rows[0]), "nss");
    assert_eq!(rows[1].iter().map(|c| c.ch).collect::<String>(), "cd ");
    assert_eq!(styles(&rows[1]), "ssc");
}

#[test]
fn render_clips_to_the_height() {
    let mut ed = editor_with("a\nb\nc\nd", 10, 2);
    let rows = ed.render(10, 2);
    assert_eq!(rows.len(), 2);
    assert_eq!(rows[0][0].ch, 'a');
    assert_eq!(rows[0][0].style, CellStyle::Cursor);
    assert_eq!(rows[1][0].ch, 'b');
    ed.move_cursor(CursorMove::End, false);
    let rows = ed.render(10, 2);
    assert_eq!(ed.scroll_offset(), 2);
    assert_eq!(rows[0][0].ch, 'c');
    assert_eq!(rows[1].iter().map(|c| c.ch).collect::<String>(), "d ");
}

#[test]
fn clear_and_load_reset_the_session() {
    let mut ed = editor_with("abc", 10, 5);
    ed.select_all();
    ed.clear();
    assert_eq!(ed.contents(), "");
    assert_eq!(ed.cursor(), 0);
    assert_eq!(ed.selection(), None);
    ed.push_str("xyz");
    ed.load("é");
    assert_eq!(ed.contents(), "é");
    assert_eq!(ed.cursor(), 0);
    assert_eq!(ed.len(), 2);
    ed.move_cursor(CursorMove::End, false);
    assert_eq!(ed.cursor(), 2);
}

#[test]
fn render_wraps_hello_world_at_five_columns() {
    let mut ed = TextEditor::new();
    ed.push_str("hello world");
    let rows = ed.render(5, 4);
    assert_eq!(rows.len(), 3);
    let texts: Vec<String> = rows.iter().map(|r| r.iter().map(|c| c.ch).collect()).collect();
    assert_eq!(texts, vec!["hello", " worl", "d "]);
    assert_eq!(styles(&rows[2]), "nc");
    assert_eq!(ed.scroll_offset(), 0);
}
