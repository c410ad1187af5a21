use held::region_controller::RegionController;

#[test]
fn new_controller_keeps_region_and_offset() {
    let c = RegionController::new(3, 7);
    assert_eq!(c.region(), 3);
    assert_eq!(c.line_offset(), 7);
}

#[test]
fn set_region_keeps_offset() {
    let mut c = RegionController::new(3, 7);
    c.set_region(9);
    assert_eq!(c.region(), 9);
    assert_eq!(c.line_offset(), 7);
}

#[test]
fn cursor_above_view_becomes_top_line() {
    let mut c = RegionController::new(0, 5);
    c.scroll_into_monitor(10, 20, 3, "a\nb\nc\nd\ne\nf", 1);
    assert_eq!(c.line_offset(), 3);
}

#[test]
fn cursor_far_below_scrolls_one_line() {
    let mut c = RegionController::new(0, 0);
    // view of 3 lines, 10 text columns; lines shown take 3 screen lines
    c.scroll_into_monitor(3, 12, 3, "a\nb\nc\nd\ne", 1);
    assert_eq!(c.line_offset(), 1);
}

#[test]
fn cursor_in_view_keeps_offset() {
    let mut c = RegionController::new(0, 0);
    c.scroll_into_monitor(3, 12, 2, "a\nb\nc\nd\ne", 1);
    assert_eq!(c.line_offset(), 0);
}

#[test]
fn long_lines_count_their_wrapped_height() {
    let mut c = RegionController::new(0, 0);
    // 25 columns wrapped at 10 take 3 screen lines: 0 + 2 + 2 <= 1 + 3
    c.scroll_into_monitor(2, 12, 1, "aaaaaaaaaaaaaaaaaaaaaaaaa", 1);
    assert_eq!(c.line_offset(), 1);
}

#[test]
fn wrapping_counts_grapheme_clusters_not_chars() {
    let mut c = RegionController::new(0, 0);
    // ten clusters of two chars each fit one wrapped line of 10 columns
    let line = "e\u{301}".repeat(10);
    c.scroll_into_monitor(1, 12, 0, &line, 1);
    assert_eq!(c.line_offset(), 0);
}

#[test]
fn lines_end_at_crlf() {
    let mut c = RegionController::new(0, 0);
    // the first line is ten columns once its "\r\n" is cut off
    c.scroll_into_monitor(1, 12, 0, "aaaaaaaaaa\r\nb", 1);
    assert_eq!(c.line_offset(), 0);
}

#[test]
fn empty_buffer_view_keeps_offset() {
    let mut c = RegionController::new(0, 0);
    c.scroll_into_monitor(5, 2, 0, "", 1);
    assert_eq!(c.line_offset(), 0);
}

#[test]
fn scroll_to_center_puts_cursor_mid_view() {
    let mut c = RegionController::new(0, 0);
    c.scroll_to_center(10, 20);
    assert_eq!(c.line_offset(), 15);
    c.scroll_to_center(10, 3);
    assert_eq!(c.line_offset(), 0);
    c.scroll_to_center(11, 20);
    assert_eq!(c.line_offset(), 15);
}

#[test]
fn scroll_up_stops_at_top() {
    let mut c = RegionController::new(0, 5);
    c.scroll_up(2);
    assert_eq!(c.line_offset(), 3);
    c.scroll_up(10);
    assert_eq!(c.line_offset(), 0);
}

#[test]
fn scroll_down_saturates() {
    let mut c = RegionController::new(0, usize::MAX - 1);
    c.scroll_down(5);
    assert_eq!(c.line_offset(), usize::MAX);
}

#[test]
fn scroll_down_undoes_scroll_up() {
    let mut c = RegionController::new(0, 9);
    c.scroll_up(4);
    c.scroll_down(4);
    assert_eq!(c.line_offset(), 9);
}

#[test]
fn scroll_with_counts_wraps_each_count() {
    // view of 2 lines and 5 text columns: counts 0, 7 and 5 take 1, 2 and 1 lines
    let mut c = RegionController::new(0, 0);
    c.scroll_with_counts(2, 7, 1, &vec![0, 7], 1);
    // 0 + 2 + 2 <= 1 + 3
    assert_eq!(c.line_offset(), 1);
    let mut d = RegionController::new(0, 0);
    d.scroll_with_counts(2, 7, 0, &vec![0, 5], 1);
    // 0 + 2 + 2 > 0 + 2
    assert_eq!(d.line_offset(), 0);
}

#[test]
fn scroll_with_counts_moves_to_cursor_above_view() {
    let mut c = RegionController::new(4, 9);
    c.scroll_with_counts(3, 10, 2, &vec![], 1);
    assert_eq!(c.line_offset(), 2);
    assert_eq!(c.region(), 4);
}
