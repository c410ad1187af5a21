use syntect::parsing::SyntaxSet;
use held::geometry::Position;
use held::monitor::{BufferState, Monitor, MonitorError};
use held::region::SplitMode;
use held::workspace::{BufferHandle, Workspace};

fn handle(path: Option<&str>) -> BufferHandle {
    BufferHandle { id: None, absolute_path: path.map(|p| p.to_string()), ino: None, syntax_definition: None }
}

fn state(id: usize) -> BufferState {
    BufferState { id: Some(id), cursor: Position::new(0, 0), data: String::new(), line_number_width: 2 }
}

fn screen_ids(w: &Workspace) -> Vec<Option<usize>> {
    w.get_observation_buffers_iter().map(|b| b.id).collect()
}

#[test]
fn new_workspace_is_empty() {
    let w = Workspace::new(SyntaxSet::load_defaults_newlines());
    assert!(w.current_buffer().is_none());
    assert!(w.get_observation_buffers().is_empty());
    assert!(w.get_buffer(1).is_none());
}

#[test]
fn add_buffer_gives_increasing_ids_and_keeps_aside() {
    let mut w = Workspace::new(SyntaxSet::load_defaults_newlines());
    assert_eq!(w.add_buffer(handle(Some("/a"))), 1);
    assert_eq!(w.add_buffer(handle(None)), 2);
    let b = w.get_buffer(1).unwrap();
    assert_eq!(b.id, Some(1));
    assert_eq!(b.absolute_path.as_deref(), Some("/a"));
    assert!(w.get_observation_buffers().is_empty());
    assert!(w.current_buffer().is_none());
}

#[test]
fn observe_and_cancel_move_between_screen_and_aside() {
    let mut w = Workspace::new(SyntaxSet::load_defaults_newlines());
    w.add_buffer(handle(None));
    w.add_buffer(handle(None));
    w.observe_buffer(2);
    w.observe_buffer(1);
    assert_eq!(screen_ids(&w), vec![Some(2), Some(1)]);
    // a buffer that is not kept aside is not observed twice
    w.observe_buffer(2);
    assert_eq!(screen_ids(&w), vec![Some(2), Some(1)]);
    w.cancel_observe_buffer(2);
    assert_eq!(screen_ids(&w), vec![Some(1)]);
    assert_eq!(w.get_buffer(2).unwrap().id, Some(2));
    w.cancel_observe_buffer(7);
    assert_eq!(screen_ids(&w), vec![Some(1)]);
}

#[test]
fn select_buffer_makes_current_and_puts_previous_aside() {
    let mut w = Workspace::new(SyntaxSet::load_defaults_newlines());
    w.add_buffer(handle(None));
    w.add_buffer(handle(None));
    assert!(w.select_buffer(1));
    assert_eq!(w.current_buffer().unwrap().id, Some(1));
    assert_eq!(screen_ids(&w), vec![Some(1)]);
    assert!(w.select_buffer(2));
    assert_eq!(w.current_buffer().unwrap().id, Some(2));
    assert_eq!(screen_ids(&w), vec![Some(2)]);
    assert_eq!(w.get_buffer(1).unwrap().id, Some(1));
    // selecting the current buffer again changes nothing
    assert!(w.select_buffer(2));
    assert_eq!(screen_ids(&w), vec![Some(2)]);
    // an unknown id is refused
    assert!(!w.select_buffer(9));
    assert_eq!(w.current_buffer().unwrap().id, Some(2));
}

#[test]
fn select_buffer_on_screen_moves_it_last() {
    let mut w = Workspace::new(SyntaxSet::load_defaults_newlines());
    for _ in 0..3 {
        w.add_buffer(handle(None));
    }
    w.observe_buffer(1);
    w.observe_buffer(2);
    w.observe_buffer(3);
    assert!(w.select_buffer(2));
    assert_eq!(screen_ids(&w), vec![Some(1), Some(3), Some(2)]);
    assert_eq!(w.current_buffer().unwrap().id, Some(2));
}

#[test]
fn cancel_observe_compares_id_with_current_index() {
    let mut w = Workspace::new(SyntaxSet::load_defaults_newlines());
    for _ in 0..3 {
        w.add_buffer(handle(None));
    }
    w.observe_buffer(1);
    w.observe_buffer(2);
    w.observe_buffer(3);
    assert!(w.select_buffer(2));
    // buffer 2 is at index 2, so the current index is kept in range: 2 % 2
    w.cancel_observe_buffer(2);
    assert_eq!(screen_ids(&w), vec![Some(1), Some(3)]);
    assert_eq!(w.current_buffer().unwrap().id, Some(1));
}

#[test]
fn cancel_last_buffer_leaves_no_current_buffer() {
    let mut w = Workspace::new(SyntaxSet::load_defaults_newlines());
    w.add_buffer(handle(None));
    assert!(w.select_buffer(1));
    // the current index (0) is not the id (1), so it stays, out of range
    w.cancel_observe_buffer(1);
    assert!(w.get_observation_buffers().is_empty());
    assert!(w.current_buffer().is_none());
}

#[test]
fn get_buffer_prefers_current_then_screen_then_aside() {
    let mut w = Workspace::new(SyntaxSet::load_defaults_newlines());
    w.add_buffer(handle(Some("/a")));
    w.add_buffer(handle(Some("/b")));
    w.observe_buffer(2);
    assert_eq!(w.get_buffer(2).unwrap().absolute_path.as_deref(), Some("/b"));
    assert_eq!(w.get_buffer(1).unwrap().absolute_path.as_deref(), Some("/a"));
    assert!(w.get_buffer(3).is_none());
}

#[test]
fn change_to_target_selects_buffer_and_region() {
    let mut w = Workspace::new(SyntaxSet::load_defaults_newlines());
    w.add_buffer(handle(Some("/a")));
    w.add_buffer(handle(Some("/b")));
    w.observe_buffer(1);
    w.observe_buffer(2);
    let mut m = Monitor::new(80, 25);
    let b1 = state(1);
    m.init_buffer(&b1, None).unwrap();
    m.split_root_region(SplitMode::Vertical, 50, &b1, false).unwrap();
    m.bind_region(&state(2), 2).unwrap();
    assert_eq!(w.change_to_target_observation_buffer(2, &mut m), Ok(true));
    assert_eq!(w.current_buffer().unwrap().id, Some(2));
    assert_eq!(m.selected_region_index(), 1);
    assert_eq!(w.change_to_target_observation_buffer(1, &mut m), Ok(true));
    assert_eq!(m.selected_region_index(), 0);
    assert_eq!(w.change_to_target_observation_buffer(5, &mut m), Ok(false));
    assert_eq!(w.current_buffer().unwrap().id, Some(1));
}

#[test]
fn change_to_target_without_controller_fails() {
    let mut w = Workspace::new(SyntaxSet::load_defaults_newlines());
    w.add_buffer(handle(Some("/a")));
    w.observe_buffer(1);
    let mut m = Monitor::new(80, 25);
    assert_eq!(w.change_to_target_observation_buffer(1, &mut m), Err(MonitorError::MissingBuffer));
    assert_eq!(w.current_buffer().unwrap().id, Some(1));
}

#[test]
fn change_to_next_skips_buffers_without_path() {
    let mut w = Workspace::new(SyntaxSet::load_defaults_newlines());
    w.add_buffer(handle(Some("/a")));
    w.add_buffer(handle(None));
    w.add_buffer(handle(Some("/c")));
    w.observe_buffer(1);
    w.observe_buffer(2);
    w.observe_buffer(3);
    let mut m = Monitor::new(80, 25);
    let b1 = state(1);
    m.init_buffer(&b1, None).unwrap();
    m.split_root_region(SplitMode::Horizon, 50, &b1, false).unwrap();
    m.bind_region(&state(3), 2).unwrap();
    assert_eq!(w.change_to_target_observation_buffer(1, &mut m), Ok(true));
    assert_eq!(w.change_to_next_observation_buffer(&mut m), Ok(()));
    assert_eq!(w.current_buffer().unwrap().id, Some(3));
    assert_eq!(m.selected_region_index(), 1);
    // round the end back to the first buffer
    assert_eq!(w.change_to_next_observation_buffer(&mut m), Ok(()));
    assert_eq!(w.current_buffer().unwrap().id, Some(1));
    assert_eq!(m.selected_region_index(), 0);
}

#[test]
fn change_to_next_reports_missing_controller() {
    let mut w = Workspace::new(SyntaxSet::load_defaults_newlines());
    w.add_buffer(handle(Some("/a")));
    w.add_buffer(handle(Some("/b")));
    w.observe_buffer(1);
    w.observe_buffer(2);
    let mut m = Monitor::new(80, 25);
    m.init_buffer(&state(1), None).unwrap();
    assert_eq!(w.change_to_target_observation_buffer(1, &mut m), Ok(true));
    assert_eq!(w.change_to_next_observation_buffer(&mut m), Err(MonitorError::MissingBuffer));
    // the current index has moved all the same
    assert_eq!(w.current_buffer().unwrap().id, Some(2));
}

#[test]
fn files_to_open_skips_directories_and_entered_workspace() {
    assert_eq!(Workspace::files_to_open(&vec![true, false, true, false], true), vec![1, 3]);
    assert_eq!(Workspace::files_to_open(&vec![false, false], true), vec![1]);
    assert_eq!(Workspace::files_to_open(&vec![false, false], false), vec![0, 1]);
    assert!(Workspace::files_to_open(&vec![], false).is_empty());
}

#[test]
fn create_workspace_opens_files_in_turn() {
    let mut m = Monitor::new(80, 25);
    let files = vec![
        (handle(Some("/a")), Position::new(3, 0)),
        (handle(Some("/b")), Position::new(0, 0)),
        (handle(Some("/c")), Position::new(7, 2)),
    ];
    let w = Workspace::create_workspace(&mut m, SyntaxSet::load_defaults_newlines(), files);
    assert_eq!(screen_ids(&w), vec![Some(3)]);
    assert_eq!(w.current_buffer().unwrap().absolute_path.as_deref(), Some("/c"));
    assert_eq!(w.get_buffer(1).unwrap().absolute_path.as_deref(), Some("/a"));
    assert_eq!(w.get_buffer(2).unwrap().absolute_path.as_deref(), Some("/b"));
    assert_eq!(m.get_region_controller(&state(1)).line_offset(), 3);
    assert_eq!(m.get_region_controller(&state(3)).line_offset(), 7);
    assert_eq!(m.get_region_controller(&state(2)).region(), 0);
}

#[test]
fn create_workspace_without_files_is_empty() {
    let mut m = Monitor::new(80, 25);
    let w = Workspace::create_workspace(&mut m, SyntaxSet::load_defaults_newlines(), vec![]);
    assert!(w.current_buffer().is_none());
    assert!(w.get_observation_buffers().is_empty());
}

#[test]
fn get_buffer_with_ino_finds_buffer_by_inode() {
    let mut w = Workspace::new(SyntaxSet::load_defaults_newlines());
    let a = w.add_buffer(BufferHandle { id: None, absolute_path: Some("/a".to_string()), ino: Some(77), syntax_definition: None });
    w.add_buffer(BufferHandle { id: None, absolute_path: Some("/b".to_string()), ino: None, syntax_definition: None });
    assert_eq!(w.get_buffer_with_ino(77).unwrap().id, Some(a));
    assert!(w.get_buffer_with_ino(78).is_none());
    w.observe_buffer(a);
    assert_eq!(w.get_buffer_with_ino(77).unwrap().absolute_path.as_deref(), Some("/a"));
}

#[test]
fn create_workspace_notes_inodes() {
    let mut m = Monitor::new(80, 25);
    let files = vec![
        (BufferHandle { id: None, absolute_path: Some("/a".to_string()), ino: Some(5), syntax_definition: None }, Position::new(0, 0)),
        (BufferHandle { id: None, absolute_path: Some("/b".to_string()), ino: Some(6), syntax_definition: None }, Position::new(0, 0)),
    ];
    let w = Workspace::create_workspace(&mut m, SyntaxSet::load_defaults_newlines(), files);
    assert_eq!(w.get_buffer_with_ino(5).unwrap().id, Some(1));
    assert_eq!(w.get_buffer_with_ino(6).unwrap().id, Some(2));
}

#[test]
fn get_buffer_mut_changes_the_buffer_in_place() {
    let mut w = Workspace::new(SyntaxSet::load_defaults_newlines());
    w.add_buffer(handle(Some("/a")));
    w.add_buffer(handle(Some("/b")));
    w.observe_buffer(2);
    w.get_buffer_mut(1).unwrap().absolute_path = Some("/c".to_string());
    w.get_buffer_mut(2).unwrap().ino = Some(3);
    assert_eq!(w.get_buffer(1).unwrap().absolute_path.as_deref(), Some("/c"));
    assert_eq!(w.get_observation_buffers()[0].ino, Some(3));
    assert!(w.get_buffer_mut(9).is_none());
}

#[test]
fn current_buffer_mut_changes_the_current_buffer() {
    let mut w = Workspace::new(SyntaxSet::load_defaults_newlines());
    assert!(w.current_buffer_mut().is_none());
    w.add_buffer(handle(Some("/a")));
    assert!(w.select_buffer(1));
    w.current_buffer_mut().unwrap().absolute_path = None;
    assert_eq!(w.current_buffer().unwrap().absolute_path, None);
    assert_eq!(w.current_buffer().unwrap().id, Some(1));
}

#[test]
fn observe_then_cancel_gives_the_workspace_back() {
    let mut w = Workspace::new(SyntaxSet::load_defaults_newlines());
    w.add_buffer(handle(Some("/a")));
    w.add_buffer(handle(Some("/b")));
    w.add_buffer(handle(Some("/c")));
    w.observe_buffer(1);
    assert!(w.select_buffer(2));
    let screen = screen_ids(&w);
    w.observe_buffer(3);
    assert_eq!(screen_ids(&w), vec![Some(1), Some(2), Some(3)]);
    w.cancel_observe_buffer(3);
    assert_eq!(screen_ids(&w), screen);
    assert_eq!(w.current_buffer().unwrap().id, Some(2));
    assert_eq!(w.get_buffer(3).unwrap().absolute_path.as_deref(), Some("/c"));
}

#[test]
fn select_buffer_keeps_every_buffer_held() {
    let mut w = Workspace::new(SyntaxSet::load_defaults_newlines());
    for p in ["/a", "/b", "/c"] {
        w.add_buffer(handle(Some(p)));
    }
    assert!(w.select_buffer(1));
    assert!(w.select_buffer(3));
    assert!(w.select_buffer(2));
    for (id, p) in [(1, "/a"), (2, "/b"), (3, "/c")] {
        assert_eq!(w.get_buffer(id).unwrap().absolute_path.as_deref(), Some(p));
        assert_eq!(w.get_buffer(id).unwrap().id, Some(id));
    }
    assert_eq!(screen_ids(&w), vec![Some(2)]);
    // a new buffer never takes an id given before
    assert_eq!(w.add_buffer(handle(None)), 4);
}

#[test]
fn add_buffer_chooses_syntax_by_extension_else_plain_text() {
    let mut w = Workspace::new(SyntaxSet::load_defaults_newlines());
    let rs = w.add_buffer(handle(Some("/src/main.rs")));
    let upper = w.add_buffer(handle(Some("/src/MAIN.RS")));
    let odd = w.add_buffer(handle(Some("/notes.zzqq")));
    let none = w.add_buffer(handle(None));
    let bare = w.add_buffer(handle(Some("/Makefile.")));
    assert_eq!(w.get_buffer(rs).unwrap().syntax_definition.as_deref(), Some("Rust"));
    assert_eq!(w.get_buffer(upper).unwrap().syntax_definition.as_deref(), Some("Rust"));
    assert_eq!(w.get_buffer(odd).unwrap().syntax_definition.as_deref(), Some("Plain Text"));
    assert_eq!(w.get_buffer(none).unwrap().syntax_definition.as_deref(), Some("Plain Text"));
    assert_eq!(w.get_buffer(bare).unwrap().syntax_definition.as_deref(), Some("Plain Text"));
}

#[test]
fn select_buffer_sets_the_current_one_aside() {
    let mut w = Workspace::new(SyntaxSet::load_defaults_newlines());
    for p in ["/a", "/b", "/c"] {
        w.add_buffer(handle(Some(p)));
    }
    w.observe_buffer(1);
    w.observe_buffer(2);
    assert!(w.select_buffer(2));
    assert_eq!(w.current_buffer().unwrap().id, Some(2));
    // buffer 2 is current; selecting 3 (kept aside) sets 2 aside
    assert!(w.select_buffer(3));
    assert_eq!(screen_ids(&w), vec![Some(1), Some(3)]);
    assert_eq!(w.current_buffer().unwrap().id, Some(3));
    assert_eq!(w.get_buffer(2).unwrap().absolute_path.as_deref(), Some("/b"));
}

#[test]
fn select_buffer_before_the_current_one_sets_the_next_aside() {
    let mut w = Workspace::new(SyntaxSet::load_defaults_newlines());
    for p in ["/a", "/b", "/c"] {
        w.add_buffer(handle(Some(p)));
    }
    w.observe_buffer(1);
    assert!(w.select_buffer(2));
    w.observe_buffer(3);
    assert_eq!(screen_ids(&w), vec![Some(1), Some(2), Some(3)]);
    assert_eq!(w.current_buffer().unwrap().id, Some(2));
    // taking 1 off the screen first moves the current index onto 3
    assert!(w.select_buffer(1));
    assert_eq!(screen_ids(&w), vec![Some(2), Some(1)]);
    assert_eq!(w.current_buffer().unwrap().id, Some(1));
    for (id, p) in [(1, "/a"), (2, "/b"), (3, "/c")] {
        assert_eq!(w.get_buffer(id).unwrap().absolute_path.as_deref(), Some(p));
    }
}
