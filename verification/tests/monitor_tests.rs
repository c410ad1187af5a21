use held::render_cache::RenderState;
use held::geometry::Position;
use held::monitor::{BufferState, Monitor, MonitorError};
use held::region::{Region, SplitData, SplitMode};

fn buffer(id: Option<usize>, line: usize, data: &str) -> BufferState {
    BufferState { id, cursor: Position::new(line, 0), data: data.to_string(), line_number_width: 2 }
}

#[test]
fn new_monitor_has_only_the_root() {
    let m = Monitor::new(80, 25);
    assert_eq!(m.leaf_regions(), &vec![0u16]);
    assert_eq!(m.selected_region_index(), 0);
    assert_eq!(m.root_region.id(), 0);
}

#[test]
fn init_buffer_binds_root_or_named_leaf() {
    let mut m = Monitor::new(80, 25);
    let b = buffer(Some(1), 4, "x");
    assert_eq!(m.init_buffer(&b, None), Ok(()));
    assert_eq!(m.get_region_controller(&b).region(), 0);
    assert_eq!(m.get_region_controller(&b).line_offset(), 4);
    let c = buffer(Some(2), 0, "y");
    assert_eq!(m.init_buffer(&c, Some(77)), Ok(()));
    assert_eq!(m.get_region_controller(&c).region(), 0);
}

#[test]
fn buffer_without_id_is_refused() {
    let mut m = Monitor::new(80, 25);
    let b = buffer(None, 0, "");
    assert_eq!(m.init_buffer(&b, None), Err(MonitorError::BufferWithoutId));
    assert_eq!(m.bind_region(&b, 0), Err(MonitorError::BufferWithoutId));
    assert_eq!(m.deinit_buffer(&b), Err(MonitorError::BufferWithoutId));
    assert_eq!(m.split_root_region(SplitMode::Vertical, 50, &b, false), Err(MonitorError::BufferWithoutId));
    assert_eq!(m.leaf_regions(), &vec![0u16]);
}

#[test]
fn split_moves_the_buffer_into_the_named_half() {
    let mut m = Monitor::new(80, 25);
    let b = buffer(Some(1), 0, "hello");
    m.init_buffer(&b, None).unwrap();
    assert_eq!(m.split_root_region(SplitMode::Vertical, 50, &b, false), Ok(Some(2)));
    assert_eq!(m.leaf_regions(), &vec![1u16, 2]);
    assert_eq!(m.get_region_controller(&b).region(), 1);
    assert_eq!(m.get_region_controller(&b).line_offset(), 0);
    assert_eq!(m.selected_region_index(), 0);
}

#[test]
fn split_with_layout_first_moves_buffer_to_second_half() {
    let mut m = Monitor::new(80, 25);
    let b = buffer(Some(1), 0, "hello");
    m.init_buffer(&b, None).unwrap();
    assert_eq!(m.split_root_region(SplitMode::Horizon, 50, &b, true), Ok(Some(1)));
    assert_eq!(m.get_region_controller(&b).region(), 2);
    assert_eq!(m.selected_region_index(), 1);
}

#[test]
fn split_of_other_region_keeps_buffer_and_selects_its_region() {
    let mut m = Monitor::new(80, 25);
    let b = buffer(Some(1), 0, "hello");
    m.init_buffer(&b, None).unwrap();
    m.split_root_region(SplitMode::Vertical, 50, &b, false).unwrap();
    assert_eq!(m.split_region(2, SplitMode::Horizon, 50, &b, false), Ok(Some(4)));
    assert_eq!(m.leaf_regions(), &vec![1u16, 3, 4]);
    assert_eq!(m.get_region_controller(&b).region(), 1);
    assert_eq!(m.selected_region_index(), 0);
}

#[test]
fn split_for_unknown_buffer_splits_then_fails() {
    let mut m = Monitor::new(80, 25);
    let b = buffer(Some(1), 0, "hello");
    assert_eq!(m.split_root_region(SplitMode::Vertical, 50, &b, false), Err(MonitorError::MissingBuffer));
    assert_eq!(m.leaf_regions(), &vec![1u16, 2]);
}

#[test]
fn bind_region_rebinds_at_cursor_line() {
    let mut m = Monitor::new(80, 25);
    let b = buffer(Some(1), 0, "hello");
    m.init_buffer(&b, None).unwrap();
    m.split_root_region(SplitMode::Vertical, 50, &b, false).unwrap();
    let b2 = buffer(Some(1), 6, "hello");
    assert_eq!(m.bind_region(&b2, 2), Ok(()));
    assert_eq!(m.get_region_controller(&b2).region(), 2);
    assert_eq!(m.get_region_controller(&b2).line_offset(), 6);
    // not a leaf: falls back to the selected leaf
    assert_eq!(m.bind_region(&b2, 0), Ok(()));
    assert_eq!(m.get_region_controller(&b2).region(), 1);
}

#[test]
fn swap_exchanges_controllers() {
    let mut m = Monitor::new(80, 25);
    let b1 = buffer(Some(1), 3, "a");
    let b2 = buffer(Some(2), 5, "b");
    m.init_buffer(&b1, None).unwrap();
    m.init_buffer(&b2, None).unwrap();
    assert_eq!(m.swap_buffer_region(1, 2), Ok(()));
    assert_eq!(m.get_region_controller(&b1).line_offset(), 5);
    assert_eq!(m.get_region_controller(&b2).line_offset(), 3);
}

#[test]
fn swap_with_unknown_buffer_fails() {
    let mut m = Monitor::new(80, 25);
    let b1 = buffer(Some(1), 3, "a");
    m.init_buffer(&b1, None).unwrap();
    assert_eq!(m.swap_buffer_region(7, 1), Err(MonitorError::UnknownBuffer));
    assert_eq!(m.get_region_controller(&b1).line_offset(), 3);
    assert_eq!(m.swap_buffer_region(1, 7), Err(MonitorError::UnknownBuffer));
    assert_eq!(m.deinit_buffer(&b1), Ok(()));
}

#[test]
fn update_selected_region_follows_buffer() {
    let mut m = Monitor::new(80, 25);
    let b = buffer(Some(1), 0, "a");
    m.init_buffer(&b, None).unwrap();
    m.split_root_region(SplitMode::Vertical, 50, &b, false).unwrap();
    let c = buffer(Some(2), 0, "c");
    m.bind_region(&c, 2).unwrap();
    assert_eq!(m.update_selected_region(2), Ok(()));
    assert_eq!(m.selected_region_index(), 1);
    assert_eq!(m.update_selected_region(9), Err(MonitorError::MissingBuffer));
    assert_eq!(m.selected_region_index(), 1);
}

#[test]
fn zoom_changes_fathers_share() {
    let mut m = Monitor::new(80, 25);
    let b = buffer(Some(1), 0, "a");
    m.init_buffer(&b, None).unwrap();
    m.split_root_region(SplitMode::Vertical, 50, &b, false).unwrap();
    m.zoom_up(1);
    assert_eq!(m.root_region.split_data(), SplitData::Vertical(51));
    m.zoom_down(3);
    assert_eq!(m.root_region.split_data(), SplitData::Vertical(48));
    let (up, _) = m.root_region.children().unwrap();
    assert_eq!(up.height(true), 11);
}

#[test]
fn zoom_of_second_half_moves_share_the_other_way() {
    let mut m = Monitor::new(80, 25);
    let b = buffer(Some(1), 0, "a");
    m.init_buffer(&b, None).unwrap();
    m.split_root_region(SplitMode::Vertical, 50, &b, true).unwrap();
    m.zoom_up(2);
    assert_eq!(m.root_region.split_data(), SplitData::Vertical(48));
}

#[test]
fn zoom_of_unsplit_root_does_nothing() {
    let mut m = Monitor::new(80, 25);
    m.zoom_up(1);
    assert_eq!(m.root_region.split_data(), SplitData::NotSplit);
}

#[test]
fn merge_folds_half_back_and_rebinds_buffer() {
    let mut m = Monitor::new(80, 25);
    let b = buffer(Some(1), 0, "a");
    m.init_buffer(&b, None).unwrap();
    m.split_root_region(SplitMode::Vertical, 50, &b, false).unwrap();
    assert!(m.merge(0, 1));
    assert_eq!(m.leaf_regions(), &vec![0u16]);
    assert_eq!(m.get_region_controller(&b).region(), 0);
    assert!(!m.merge(0, 1));
}

#[test]
fn merge_region_of_unknown_region_does_nothing() {
    let mut m = Monitor::new(80, 25);
    assert!(!m.merge_region(9, 5));
    assert_eq!(m.leaf_regions(), &vec![0u16]);
}

#[test]
fn scroll_through_monitor() {
    let mut m = Monitor::new(80, 25);
    let b = buffer(Some(1), 30, "a");
    m.init_buffer(&b, None).unwrap();
    m.scroll_up(&b, 10);
    assert_eq!(m.get_region_controller(&b).line_offset(), 20);
    m.scroll_down(&b, 2);
    assert_eq!(m.get_region_controller(&b).line_offset(), 22);
    // the root's inner height is 22
    assert_eq!(m.scroll_to_center(&b), Ok(()));
    assert_eq!(m.get_region_controller(&b).line_offset(), 19);
    let top = buffer(Some(1), 4, "a");
    assert_eq!(m.scroll_to_cursor(&top), Ok(()));
    assert_eq!(m.get_region_controller(&b).line_offset(), 4);
}

#[test]
fn resize_relays_out_regions() {
    let mut m = Monitor::new(80, 25);
    let b = buffer(Some(1), 0, "a");
    m.init_buffer(&b, None).unwrap();
    m.split_root_region(SplitMode::Horizon, 50, &b, false).unwrap();
    m.handle_resize(120, 25);
    let (left, right) = m.root_region.children().unwrap();
    assert_eq!(left.width(true), 60);
    assert_eq!(right.position(true), Position::new(0, 59));
    assert_eq!(right.width(true), 61);
}

#[test]
fn swap_twice_gives_controllers_back() {
    let mut m = Monitor::new(80, 25);
    let b1 = buffer(Some(1), 3, "a");
    let b2 = buffer(Some(2), 5, "b");
    m.init_buffer(&b1, None).unwrap();
    m.init_buffer(&b2, None).unwrap();
    assert_eq!(m.swap_buffer_region(1, 2), Ok(()));
    assert_eq!(m.swap_buffer_region(1, 2), Ok(()));
    assert_eq!(m.get_region_controller(&b1).line_offset(), 3);
    assert_eq!(m.get_region_controller(&b2).line_offset(), 5);
}

#[test]
fn swap_with_itself_drops_the_controller() {
    let mut m = Monitor::new(80, 25);
    let b1 = buffer(Some(1), 3, "a");
    let b2 = buffer(Some(2), 5, "b");
    m.init_buffer(&b1, None).unwrap();
    m.init_buffer(&b2, None).unwrap();
    assert_eq!(m.swap_buffer_region(1, 1), Err(MonitorError::UnknownBuffer));
    // buffer 1 has no controller left to swap
    assert_eq!(m.swap_buffer_region(1, 2), Err(MonitorError::UnknownBuffer));
    assert_eq!(m.get_region_controller(&b2).line_offset(), 5);
}

#[test]
fn swap_selected_takes_the_selected_index_as_buffer_id() {
    let mut m = Monitor::new(80, 25);
    let b0 = buffer(Some(0), 3, "a");
    let b5 = buffer(Some(5), 9, "b");
    m.init_buffer(&b0, None).unwrap();
    m.init_buffer(&b5, None).unwrap();
    assert_eq!(m.selected_region_index(), 0);
    assert_eq!(m.swap_selected_buffer_region(5), Ok(()));
    assert_eq!(m.get_region_controller(&b0).line_offset(), 9);
    assert_eq!(m.get_region_controller(&b5).line_offset(), 3);
}

#[test]
fn merging_the_empty_half_undoes_a_split_of_a_split_root() {
    let mut m = Monitor::new(80, 25);
    let b = buffer(Some(1), 0, "a");
    m.init_buffer(&b, None).unwrap();
    m.split_root_region(SplitMode::Vertical, 50, &b, false).unwrap();
    let before: Vec<(Position, usize, usize)> = {
        let (up, down) = m.root_region.children().unwrap();
        vec![(up.position(true), up.width(true), up.height(true)), (down.position(true), down.width(true), down.height(true))]
    };
    assert_eq!(m.split_root_region(SplitMode::Horizon, 30, &b, false), Ok(Some(4)));
    assert_eq!(m.leaf_regions(), &vec![1u16, 2, 4]);
    assert!(m.merge(0, 4));
    assert_eq!(m.leaf_regions(), &vec![1u16, 2]);
    assert_eq!(m.root_region.split_data(), SplitData::Vertical(50));
    let (up, down) = m.root_region.children().unwrap();
    assert_eq!(up.id(), 1);
    assert_eq!(down.id(), 2);
    let after = vec![(up.position(true), up.width(true), up.height(true)), (down.position(true), down.width(true), down.height(true))];
    assert_eq!(after, before);
}

#[test]
fn zoom_up_then_down_gives_back_the_layout() {
    let mut m = Monitor::new(80, 25);
    let b = buffer(Some(1), 0, "a");
    m.init_buffer(&b, None).unwrap();
    m.split_root_region(SplitMode::Horizon, 40, &b, false).unwrap();
    let rects = |m: &Monitor| {
        let (l, r) = m.root_region.children().unwrap();
        vec![(l.position(true), l.width(true), l.height(true)), (r.position(true), r.width(true), r.height(true))]
    };
    let before = rects(&m);
    assert!(m.can_zoom(5, true));
    m.zoom_up(5);
    assert_eq!(m.root_region.split_data(), SplitData::Horizon(45));
    assert_ne!(rects(&m), before);
    assert!(m.can_zoom(5, false));
    m.zoom_down(5);
    assert_eq!(m.root_region.split_data(), SplitData::Horizon(40));
    assert_eq!(rects(&m), before);
}

#[test]
fn render_cache_starts_empty_and_drops_lines_from_a_change_on() {
    let mut m = Monitor::new(80, 25);
    let b = buffer(Some(1), 0, "a\nb\nc\nd");
    m.init_buffer(&b, None).unwrap();
    assert!(m.get_render_cache(&b).get(0).is_none());
    for line in 0..4usize {
        m.get_render_cache(&b).insert(line, RenderState { data: vec![line as u8] });
    }
    m.buffer_changed(1, Position::new(2, 5));
    let cache = m.get_render_cache(&b);
    assert_eq!(cache.get(1).unwrap().data, vec![1u8]);
    assert!(cache.get(0).is_some());
    assert!(cache.get(2).is_none());
    assert!(cache.get(3).is_none());
    // a buffer without a cache is left alone
    m.buffer_changed(7, Position::new(0, 0));
    // a new init gives a new, empty cache
    m.init_buffer(&b, None).unwrap();
    assert!(m.get_render_cache(&b).get(0).is_none());
}

#[test]
fn zoom_is_refused_where_the_share_would_overflow() {
    let mut m = Monitor::new(80, 25);
    let b = buffer(Some(1), 0, "a");
    m.init_buffer(&b, None).unwrap();
    assert!(m.can_zoom(usize::MAX, true));
    m.split_root_region(SplitMode::Horizon, 40, &b, false).unwrap();
    assert!(!m.can_zoom(usize::MAX, true));
    assert!(!m.can_zoom(41, false));
    assert!(m.can_zoom(40, false));
}
