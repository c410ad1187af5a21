use held::geometry::Position;
use held::style::{CharStyle, Colors};
use held::terminal_cache_buffer::TerminalCachedBuffer;

#[test]
fn fresh_cache_matches_nothing() {
    let mut b = TerminalCachedBuffer::new(4, 2);
    assert!(!b.compare_or_update(&Position::new(0, 0), CharStyle::Default, Colors::Default, "a".to_string()));
}

#[test]
fn second_write_of_same_text_matches() {
    let mut b = TerminalCachedBuffer::new(4, 2);
    assert!(!b.compare_or_update(&Position::new(0, 1), CharStyle::Bold, Colors::Focused, "ab".to_string()));
    assert!(b.compare_or_update(&Position::new(0, 1), CharStyle::Bold, Colors::Focused, "ab".to_string()));
}

#[test]
fn other_style_or_colors_do_not_match() {
    let mut b = TerminalCachedBuffer::new(4, 2);
    b.compare_or_update(&Position::new(1, 0), CharStyle::Bold, Colors::Default, "x".to_string());
    assert!(!b.compare_or_update(&Position::new(1, 0), CharStyle::Italic, Colors::Default, "x".to_string()));
    assert!(!b.compare_or_update(&Position::new(1, 0), CharStyle::Italic, Colors::Warning, "x".to_string()));
    assert!(b.compare_or_update(&Position::new(1, 0), CharStyle::Italic, Colors::Warning, "x".to_string()));
}

#[test]
fn text_past_the_end_is_cut_off() {
    let mut b = TerminalCachedBuffer::new(4, 2);
    assert!(!b.compare_or_update(&Position::new(1, 3), CharStyle::Default, Colors::Default, "xyz".to_string()));
    assert!(b.compare_or_update(&Position::new(1, 3), CharStyle::Default, Colors::Default, "x".to_string()));
    assert!(b.compare_or_update(&Position::new(1, 3), CharStyle::Default, Colors::Default, "xqq".to_string()));
}

#[test]
fn text_wholly_outside_matches() {
    let mut b = TerminalCachedBuffer::new(4, 2);
    assert!(b.compare_or_update(&Position::new(5, 0), CharStyle::Default, Colors::Default, "abc".to_string()));
}

#[test]
fn one_cell_per_grapheme_cluster() {
    let mut b = TerminalCachedBuffer::new(4, 1);
    b.compare_or_update(&Position::new(0, 0), CharStyle::Default, Colors::Default, "e\u{301}z".to_string());
    // "z" sits in the second cell, right after the cluster
    assert!(b.compare_or_update(&Position::new(0, 1), CharStyle::Default, Colors::Default, "z".to_string()));
    assert!(b.compare_or_update(&Position::new(0, 0), CharStyle::Default, Colors::Default, "e\u{301}".to_string()));
    assert!(!b.compare_or_update(&Position::new(0, 0), CharStyle::Default, Colors::Default, "e".to_string()));
}

#[test]
fn empty_text_matches_and_changes_nothing() {
    let mut b = TerminalCachedBuffer::new(2, 2);
    assert!(b.compare_or_update(&Position::new(0, 0), CharStyle::Default, Colors::Default, String::new()));
    assert!(!b.compare_or_update(&Position::new(0, 0), CharStyle::Default, Colors::Default, "a".to_string()));
}

#[test]
fn zero_sized_cache_matches_everything() {
    let mut b = TerminalCachedBuffer::new(0, 0);
    assert!(b.compare_or_update(&Position::new(0, 0), CharStyle::Default, Colors::Default, "a".to_string()));
}

#[test]
fn lexemes_are_written_one_per_cell() {
    let mut b = TerminalCachedBuffer::new(3, 1);
    let lexemes = vec!["e\u{301}".to_string(), "x".to_string()];
    assert!(!b.compare_or_update_lexemes(&Position::new(0, 1), CharStyle::Default, Colors::Default, &lexemes));
    assert!(b.compare_or_update_lexemes(&Position::new(0, 1), CharStyle::Default, Colors::Default, &lexemes));
    // the same text through the grapheme split lands in the same cells
    assert!(b.compare_or_update(&Position::new(0, 1), CharStyle::Default, Colors::Default, "e\u{301}x".to_string()));
}

#[test]
fn lexemes_past_the_end_are_dropped() {
    let mut b = TerminalCachedBuffer::new(2, 1);
    let lexemes = vec!["a".to_string(), "b".to_string(), "c".to_string()];
    assert!(!b.compare_or_update_lexemes(&Position::new(0, 1), CharStyle::Default, Colors::Default, &lexemes));
    // only the cell at offset 1 was written; "a" there matches, the rest is cut off
    assert!(b.compare_or_update_lexemes(&Position::new(0, 1), CharStyle::Default, Colors::Default, &vec!["a".to_string(), "z".to_string()]));
}
