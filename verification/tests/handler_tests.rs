use syntect::parsing::SyntaxSet;
use held::geometry::Position;
use held::handler::{next_observation_buffer, scroll_to_center, scroll_to_cursor, to_normal_mode, zoom_down, zoom_up};
use held::monitor::MonitorError;
use held::monitor::{BufferState, Monitor};
use held::region::{Region, SplitData, SplitMode};
use held::workspace::{BufferHandle, Workspace};

fn state(id: usize, line: usize) -> BufferState {
    BufferState { id: Some(id), cursor: Position::new(line, 0), data: String::new(), line_number_width: 2 }
}

#[test]
fn scroll_handlers_without_buffer_do_nothing() {
    let mut m = Monitor::new(80, 25);
    assert_eq!(scroll_to_cursor(&mut m, None), Ok(()));
    assert_eq!(scroll_to_center(&mut m, None), Ok(()));
    assert_eq!(m.leaf_regions(), &vec![0u16]);
}

#[test]
fn scroll_handlers_move_the_current_buffer() {
    let mut m = Monitor::new(80, 25);
    let b = state(1, 0);
    m.init_buffer(&b, None).unwrap();
    let far = state(1, 40);
    assert_eq!(scroll_to_center(&mut m, Some(&far)), Ok(()));
    assert_eq!(m.get_region_controller(&far).line_offset(), 29);
    let near = state(1, 3);
    assert_eq!(scroll_to_cursor(&mut m, Some(&near)), Ok(()));
    assert_eq!(m.get_region_controller(&near).line_offset(), 3);
}

#[test]
fn zoom_handlers_change_share_by_one() {
    let mut m = Monitor::new(80, 25);
    let b = state(1, 0);
    m.init_buffer(&b, None).unwrap();
    m.split_root_region(SplitMode::Horizon, 50, &b, false).unwrap();
    assert_eq!(zoom_up(&mut m), Ok(()));
    assert_eq!(m.root_region.split_data(), SplitData::Horizon(51));
    assert_eq!(zoom_down(&mut m), Ok(()));
    assert_eq!(zoom_down(&mut m), Ok(()));
    assert_eq!(m.root_region.split_data(), SplitData::Horizon(49));
}

#[test]
fn next_observation_buffer_moves_to_next_file() {
    let mut w = Workspace::new(SyntaxSet::load_defaults_newlines());
    w.add_buffer(BufferHandle { id: None, absolute_path: Some("/a".to_string()), ino: None, syntax_definition: None });
    w.add_buffer(BufferHandle { id: None, absolute_path: Some("/b".to_string()), ino: None, syntax_definition: None });
    w.observe_buffer(1);
    w.observe_buffer(2);
    let mut m = Monitor::new(80, 25);
    m.init_buffer(&state(1, 0), None).unwrap();
    m.init_buffer(&state(2, 0), None).unwrap();
    assert_eq!(w.change_to_target_observation_buffer(1, &mut m), Ok(true));
    assert_eq!(next_observation_buffer(&mut w, &mut m), Ok(()));
    assert_eq!(w.current_buffer().unwrap().id, Some(2));
}

#[test]
fn to_normal_mode_returns_to_previous_buffer() {
    let mut w = Workspace::new(SyntaxSet::load_defaults_newlines());
    w.add_buffer(BufferHandle { id: None, absolute_path: Some("/a".to_string()), ino: None, syntax_definition: None });
    w.add_buffer(BufferHandle { id: None, absolute_path: Some("/b".to_string()), ino: None, syntax_definition: None });
    w.observe_buffer(1);
    w.observe_buffer(2);
    let mut m = Monitor::new(80, 25);
    let b1 = state(1, 0);
    m.init_buffer(&b1, None).unwrap();
    m.split_root_region(SplitMode::Vertical, 50, &b1, false).unwrap();
    m.bind_region(&state(2, 0), 2).unwrap();
    assert_eq!(to_normal_mode(&mut w, &mut m, Some(2)), Ok(()));
    assert_eq!(w.current_buffer().unwrap().id, Some(2));
    assert_eq!(m.selected_region_index(), 1);
    // outside the workspace mode nothing changes
    assert_eq!(to_normal_mode(&mut w, &mut m, None), Ok(()));
    assert_eq!(w.current_buffer().unwrap().id, Some(2));
    // a buffer without a region cannot be returned to
    w.add_buffer(BufferHandle { id: None, absolute_path: None, ino: None, syntax_definition: None });
    w.observe_buffer(3);
    assert_eq!(to_normal_mode(&mut w, &mut m, Some(3)), Err(MonitorError::MissingBuffer));
}
