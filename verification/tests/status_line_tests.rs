use held::status_line::{status_line_fits, status_line_parts, try_status_line_parts, StatusLineData};
use held::style::{CharStyle, Colors};

fn data(content: &str) -> StatusLineData {
    StatusLineData { content: content.to_string(), color: Colors::Default, style: CharStyle::Default }
}

#[test]
fn single_part_fills_the_line() {
    let parts = status_line_parts(&vec![data("ab")], 6);
    assert_eq!(parts, vec![(0, "ab    ".to_string())]);
}

#[test]
fn last_part_fills_what_the_others_leave() {
    let parts = status_line_parts(&vec![data(" NORMAL "), data("main.rs")], 20);
    assert_eq!(parts, vec![(0, " NORMAL ".to_string()), (8, "main.rs     ".to_string())]);
}

#[test]
fn offsets_count_bytes_and_padding_counts_characters() {
    let parts = status_line_parts(&vec![data("é"), data("x")], 5);
    // "é" takes two bytes; the line has 5 - 2 = 3 columns left for "x"
    assert_eq!(parts, vec![(0, "é".to_string()), (2, "x  ".to_string())]);
}

#[test]
fn parts_longer_than_the_line_are_kept_whole() {
    let parts = status_line_parts(&vec![data("abcdef"), data("gh")], 4);
    assert_eq!(parts, vec![(0, "abcdef".to_string()), (6, "gh".to_string())]);
}

#[test]
fn no_parts_print_nothing() {
    assert!(status_line_parts(&vec![], 10).is_empty());
}

#[test]
fn status_line_fits_unless_the_padding_overflows() {
    assert!(status_line_fits(&vec![], usize::MAX));
    assert!(status_line_fits(&vec![data("ab"), data("c")], 20));
    // the last part is padded to the end of the line, counted in characters:
    // "ab" and "c" take 3 bytes and the padding usize::MAX - 3 more
    assert!(status_line_fits(&vec![data("ab"), data("c")], usize::MAX));
    // "é" takes two bytes for one column, one byte too many
    assert!(!status_line_fits(&vec![data("c"), data("é")], usize::MAX));
}

#[test]
fn try_status_line_parts_lays_out_or_refuses() {
    assert_eq!(
        try_status_line_parts(&vec![data(" NORMAL "), data("main.rs")], 20),
        Some(vec![(0, " NORMAL ".to_string()), (8, "main.rs     ".to_string())])
    );
    assert_eq!(try_status_line_parts(&vec![data("c"), data("é")], usize::MAX), None);
}
