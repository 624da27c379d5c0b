use lazycard::editor::TextEditor;
use lazycard::editor::vertical_move;
use lazycard::layout::{layout_text, layout_with, VisualLine};
use lazycard::line_parser::LineParser;
use lazycard::render::{Cell, CellStyle};
use unicode_width::UnicodeWidthChar;

fn ranges(lines: &[VisualLine]) -> Vec<(usize, usize, bool)> {
    lines.iter().map(|l| (l.start, l.end, l.hard_break)).collect()
}

fn rebuild(text: &str, lines: &[VisualLine]) -> String {
    let mut out = String::new();
    for l in lines {
        out.push_str(&text[l.start..l.end]);
        if l.hard_break {
            out.push('\n');
        }
    }
    out
}

fn columns(s: &str) -> usize {
    s.chars().map(|c| c.width().unwrap_or(1)).sum()
}

#[test]
fn hard_break_then_cursor_on_second_row() {
    let mut ed = TextEditor::new();
    ed.load("ab\ncd");
    ed.resize(10, 5);
    for _ in 0..3 {
        ed.move_cursor(lazycard::editor::CursorMove::Forward, false);
    }
    assert_eq!(ed.cursor(), 3);
    let layout = ed.layout();
    assert_eq!(ranges(&layout.lines), vec![(0, 2, true), (3, 5, false)]);
    assert_eq!(layout.cursor_row, 1);
    assert_eq!(layout.cursor_col, 0);
}

#[test]
fn empty_text_has_one_empty_line_and_a_cursor_glyph() {
    let lines = layout_text("", 5);
    assert_eq!(ranges(&lines), vec![(0, 0, false)]);
    let mut ed = TextEditor::new();
    ed.load("");
    let rows = ed.render(5, 3);
    assert_eq!(ed.cursor(), 0);
    assert_eq!(rows.len(), 1);
    assert_eq!(rows[0], vec![Cell { ch: ' ', style: CellStyle::Cursor }]);
    let layout = ed.layout();
    assert_eq!((layout.cursor_row, layout.cursor_col), (0, 0));
}

#[test]
fn greedy_wrap_ignores_word_boundaries() {
    let text = "hello world";
    let lines = layout_text(text, 5);
    let parts: Vec<&str> = lines.iter().map(|l| &text[l.start..l.end]).collect();
    assert_eq!(parts, vec!["hello", " worl", "d"]);
    assert!(lines.iter().all(|l| !l.hard_break));
}

#[test]
fn text_ending_on_a_full_line_gets_an_empty_last_line() {
    let lines = layout_text("hello", 5);
    assert_eq!(ranges(&lines), vec![(0, 5, false), (5, 5, false)]);
}

#[test]
fn trailing_newline_gets_an_empty_last_line() {
    let lines = layout_text("ab\n", 10);
    assert_eq!(ranges(&lines), vec![(0, 2, true), (3, 3, false)]);
}

#[test]
fn multibyte_characters_use_byte_offsets() {
    let lines = layout_text("é\nü", 10);
    assert_eq!(ranges(&lines), vec![(0, 2, true), (3, 5, false)]);
    assert_eq!((lines[1].char_start, lines[1].char_end), (2, 3));
}

#[test]
fn wide_character_counts_two_columns() {
    let text = "a世b";
    let lines = layout_text(text, 3);
    let parts: Vec<&str> = lines.iter().map(|l| &text[l.start..l.end]).collect();
    assert_eq!(parts, vec!["a世", "b"]);
}

#[test]
fn character_wider_than_width_gets_its_own_line() {
    let text = "世界";
    let lines = layout_text(text, 1);
    let parts: Vec<&str> = lines.iter().map(|l| &text[l.start..l.end]).collect();
    assert_eq!(parts, vec!["世", "界", ""]);
}

#[test]
fn zero_width_puts_each_character_on_its_own_line() {
    let text = "ab";
    let lines = layout_text(text, 0);
    let parts: Vec<&str> = lines.iter().map(|l| &text[l.start..l.end]).collect();
    assert_eq!(parts, vec!["a", "b", ""]);
}

#[test]
fn lines_rebuild_the_text() {
    let texts = ["", "a", "hello world", "ab\ncd\n\nef", "\n", "é世x\nyz", "aaaaaaaaaaaaaaaaaaaaaa\nb"];
    for text in texts {
        for width in 0..8 {
            let lines = layout_text(text, width);
            assert_eq!(rebuild(text, &lines), text, "text {:?} width {}", text, width);
        }
    }
}

#[test]
fn lines_fit_the_width_but_for_a_single_wide_character() {
    let texts = ["hello world", "ab\ncdefgh", "x\u{4e16}\u{754c}y", "\u{4e16}\u{4e16}\u{4e16}"];
    for text in texts {
        for width in 0..8 {
            for l in layout_text(text, width) {
                let s = &text[l.start..l.end];
                let fits = columns(s) <= width;
                let single_wide = s.chars().count() == 1 && columns(s) > width;
                let mut prefix = s.to_string();
                prefix.pop();
                let overflow_by_last = columns(&prefix) < width.max(1) || s.chars().count() == 1;
                assert!(fits || single_wide || overflow_by_last, "text {:?} width {}", text, width);
                if s.chars().all(|c| c.width().unwrap_or(1) <= 1) {
                    assert!(fits || single_wide, "text {:?} width {}", text, width);
                }
            }
        }
    }
}

#[test]
fn wide_character_can_cross_the_width() {
    let text = "a\u{4e00}";
    let lines = layout_text(text, 2);
    assert_eq!(ranges(&lines), vec![(0, 4, false), (4, 4, false)]);
    assert_eq!(columns(&text[0..4]), 3);
}

#[test]
fn line_parser_splits_by_width_and_newline() {
    let mut p = LineParser::new("abcd\nef", 3);
    assert_eq!(p.next(), Some("abc".to_string()));
    assert_eq!(p.next(), Some("d".to_string()));
    assert_eq!(p.next(), Some("ef".to_string()));
    assert_eq!(p.next(), None);
    assert_eq!(p.next(), None);
}

#[test]
fn line_parser_on_empty_text_yields_one_empty_line() {
    let mut p = LineParser::new("", 4);
    assert_eq!(p.next(), Some(String::new()));
    assert_eq!(p.next(), None);
}

#[test]
fn line_parser_ends_with_an_empty_line_after_a_full_one() {
    let mut p = LineParser::new("abcde", 5);
    assert_eq!(p.next(), Some("abcde".to_string()));
    assert_eq!(p.next(), Some(String::new()));
    assert_eq!(p.next(), None);
    let mut p = LineParser::new("abcde\n", 5);
    assert_eq!(p.next(), Some("abcde".to_string()));
    assert_eq!(p.next(), Some(String::new()));
    assert_eq!(p.next(), Some(String::new()));
    assert_eq!(p.next(), None);
}

#[test]
fn line_parser_measures_display_width() {
    let mut p = LineParser::new("\u{4e16}\u{754c}ab", 2);
    assert_eq!(p.next(), Some("\u{4e16}".to_string()));
    assert_eq!(p.next(), Some("\u{754c}".to_string()));
    assert_eq!(p.next(), Some("ab".to_string()));
    assert_eq!(p.next(), Some(String::new()));
    assert_eq!(p.next(), None);
}

#[test]
fn line_parser_matches_the_layout() {
    let text = "hello world\nab";
    let mut p = LineParser::new(text, 5);
    let mut got = Vec::new();
    while let Some(line) = p.next() {
        got.push(line);
    }
    let want: Vec<String> = layout_text(text, 5).iter().map(|l| text[l.start..l.end].to_string()).collect();
    assert_eq!(got, want);
    assert_eq!(got, vec!["hello", " worl", "d", "ab"]);
}

#[test]
fn layout_follows_the_given_widths() {
    let text: Vec<char> = "abcd".chars().collect();
    let layout = layout_with(&text, &[2, 2, 1, 1], 3, 2);
    let spans: Vec<(usize, usize, bool)> = layout
        .lines
        .iter()
        .map(|l| (l.char_start, l.char_end, l.hard_break))
        .collect();
    assert_eq!(spans, vec![(0, 2, false), (2, 4, false)]);
    assert_eq!((layout.cursor_row, layout.cursor_col), (1, 0));
    let layout = layout_with(&text, &[2, 2, 1, 1], 3, 4);
    assert_eq!((layout.cursor_row, layout.cursor_col), (1, 2));
}

#[test]
fn vertical_move_follows_the_given_widths() {
    let text: Vec<char> = "ab\ncd".chars().collect();
    assert_eq!(vertical_move(&text, &[1, 1, 1, 1, 1], 10, 5, true), 2);
    assert_eq!(vertical_move(&text, &[2, 1, 1, 1, 1], 10, 5, true), 1);
    assert_eq!(vertical_move(&text, &[1, 1, 1, 1, 1], 10, 1, false), 4);
    assert_eq!(vertical_move(&text, &[1, 1, 1, 1, 1], 10, 4, false), 5);
    assert_eq!(vertical_move(&text, &[1, 1, 1, 1, 1], 10, 1, true), 0);
}
