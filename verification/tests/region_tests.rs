use held::monitor::{BufferState, Monitor};
use held::geometry::Position;
use held::region::{
    alloc_region_id, MergeRecord, Region, RegionIdAllocator, RegionRef, RootRegion, SplitData, SplitMode,
    StaticRegion,
};

fn root_80x25() -> (RegionIdAllocator, RootRegion) {
    let mut allocator = RegionIdAllocator::new();
    let root = RootRegion::new(&mut allocator, 80, 25);
    (allocator, root)
}

fn leaves(root: &RootRegion) -> Vec<u16> {
    let mut v = Vec::new();
    root.fill_leaf_regions(&mut v);
    v
}

#[test]
fn ids_are_handed_out_in_sequence() {
    let mut a = RegionIdAllocator::new();
    assert_eq!(alloc_region_id(&mut a), 0);
    assert_eq!(alloc_region_id(&mut a), 1);
    assert_eq!(alloc_region_id(&mut a), 2);
}

#[test]
fn ids_wrap_after_u16_max() {
    let mut a = RegionIdAllocator::new();
    for _ in 0..65535u32 {
        alloc_region_id(&mut a);
    }
    assert_eq!(alloc_region_id(&mut a), 65535);
    assert_eq!(alloc_region_id(&mut a), 0);
}

#[test]
fn root_takes_terminal_but_status_line() {
    let (_, root) = root_80x25();
    assert_eq!(root.id(), 0);
    assert_eq!(root.father_id(), None);
    assert_eq!(root.position(true), Position::new(0, 0));
    assert_eq!(root.position(false), Position::new(1, 1));
    assert_eq!(root.width(true), 80);
    assert_eq!(root.width(false), 78);
    assert_eq!(root.height(true), 24);
    assert_eq!(root.height(false), 22);
    assert_eq!(leaves(&root), vec![0]);
}

#[test]
fn tiny_terminal_saturates_inner_size() {
    let mut a = RegionIdAllocator::new();
    let root = RootRegion::new(&mut a, 1, 2);
    assert_eq!(root.width(false), 0);
    assert_eq!(root.height(false), 0);
    assert_eq!(root.height(true), 1);
}

#[test]
fn static_region_inner_area() {
    let mut a = RegionIdAllocator::new();
    let r = StaticRegion::new(&mut a, 7, Position::new(3, 4), 10, 6);
    assert_eq!(r.id(), 0);
    assert_eq!(r.father_id(), Some(7));
    assert_eq!(r.position(false), Position::new(4, 5));
    assert_eq!(r.width(false), 8);
    assert_eq!(r.height(false), 4);
    let rect = r.rectangle(true);
    assert_eq!(rect.position, Position::new(3, 4));
    assert_eq!(rect.width, 10);
    assert_eq!(rect.height, 6);
}

#[test]
fn vertical_split_of_root_shares_one_line() {
    let (mut a, mut root) = root_80x25();
    let ids = root.split(&mut a, SplitMode::Vertical, 50, false);
    assert_eq!(ids, (1, 2));
    assert_eq!(root.split_data(), SplitData::Vertical(50));
    let (up, down) = root.children().unwrap();
    assert_eq!(up.id(), 1);
    assert_eq!(down.id(), 2);
    assert_eq!(up.father_id(), Some(0));
    assert_eq!(down.father_id(), Some(0));
    assert_eq!(up.position(true), Position::new(0, 0));
    assert_eq!(up.height(true), 12);
    assert_eq!(up.width(true), 80);
    assert_eq!(down.position(true), Position::new(11, 0));
    assert_eq!(down.height(true), 13);
    assert_eq!(down.width(true), 80);
    assert_eq!(leaves(&root), vec![1, 2]);
}

#[test]
fn horizontal_split_shares_one_column() {
    let (mut a, mut root) = root_80x25();
    root.split(&mut a, SplitMode::Vertical, 50, false);
    let ids = root.split_region_by_id(2, &mut a, SplitMode::Horizon, 30, false);
    assert_eq!(ids, (3, 4));
    let (_, down) = root.children().unwrap();
    assert_eq!(down.split_data(), SplitData::Horizon(30));
    let (left, right) = down.children().unwrap();
    assert_eq!(left.position(true), Position::new(11, 0));
    assert_eq!(left.width(true), 24);
    assert_eq!(left.height(true), 13);
    assert_eq!(right.position(true), Position::new(11, 23));
    assert_eq!(right.width(true), 57);
    assert_eq!(right.height(true), 13);
    assert_eq!(leaves(&root), vec![1, 3, 4]);
}

#[test]
fn split_of_split_region_moves_children_into_named_half() {
    let (mut a, mut root) = root_80x25();
    root.split(&mut a, SplitMode::Vertical, 50, false);
    // the old children (1, 2) go into the second half when layout_first holds
    let ids = root.split(&mut a, SplitMode::Horizon, 50, true);
    assert_eq!(ids, (3, 4));
    assert_eq!(leaves(&root), vec![3, 1, 2]);
    let (first, second) = root.children().unwrap();
    assert!(first.children().is_none());
    assert_eq!(second.split_data(), SplitData::Vertical(50));
    let (c1, c2) = second.children().unwrap();
    assert_eq!(c1.father_id(), Some(4));
    assert_eq!(c2.father_id(), Some(4));
    // the moved children are laid out inside the second half
    assert_eq!(second.position(true), Position::new(0, 39));
    assert_eq!(c2.position(true), Position::new(11, 39));
    assert_eq!(c2.width(true), 41);
}

#[test]
fn split_of_split_region_without_layout_first_keeps_children_first() {
    let (mut a, mut root) = root_80x25();
    root.split(&mut a, SplitMode::Vertical, 50, false);
    root.split(&mut a, SplitMode::Horizon, 50, false);
    assert_eq!(leaves(&root), vec![1, 2, 4]);
}

#[test]
fn handle_resize_follows_terminal_and_is_idempotent() {
    let (mut a, mut root) = root_80x25();
    root.split(&mut a, SplitMode::Vertical, 50, false);
    root.set_terminal_size(100, 41);
    root.handle_resize();
    let (up, down) = root.children().unwrap();
    assert_eq!(up.height(true), 20);
    assert_eq!(up.width(true), 100);
    assert_eq!(down.position(true), Position::new(19, 0));
    assert_eq!(down.height(true), 21);
    let before = (down.position(true), down.width(true), down.height(true));
    root.handle_resize();
    let (_, down) = root.children().unwrap();
    assert_eq!((down.position(true), down.width(true), down.height(true)), before);
}

#[test]
fn find_region_by_id_finds_root_and_halves() {
    let (mut a, mut root) = root_80x25();
    root.split(&mut a, SplitMode::Vertical, 50, false);
    match root.find_region_by_id(0) {
        Some(RegionRef::Root(r)) => assert_eq!(r.id(), 0),
        _ => panic!("root not found"),
    }
    match root.find_region_by_id(2) {
        Some(RegionRef::Static(r)) => assert_eq!(r.position(true), Position::new(11, 0)),
        _ => panic!("half not found"),
    }
    assert!(root.find_region_by_id(9).is_none());
}

#[test]
fn merge_after_split_gives_back_a_leaf() {
    let (mut a, mut root) = root_80x25();
    root.split(&mut a, SplitMode::Vertical, 50, false);
    let record = root.merge(1);
    assert_eq!(record, Some(MergeRecord { father: 0, first: 1, second: 2, became_leaf: true }));
    assert!(root.children().is_none());
    assert_eq!(leaves(&root), vec![0]);
}

#[test]
fn merge_of_leaf_next_to_split_region_lifts_its_children() {
    let (mut a, mut root) = root_80x25();
    root.split(&mut a, SplitMode::Vertical, 50, false);
    root.split_region_by_id(2, &mut a, SplitMode::Horizon, 30, false);
    let record = root.merge(1);
    assert_eq!(record, Some(MergeRecord { father: 0, first: 1, second: 2, became_leaf: false }));
    assert_eq!(root.split_data(), SplitData::Horizon(30));
    assert_eq!(leaves(&root), vec![3, 4]);
    let (left, right) = root.children().unwrap();
    assert_eq!(left.father_id(), Some(0));
    assert_eq!(left.position(true), Position::new(0, 0));
    assert_eq!(left.height(true), 24);
    assert_eq!(right.position(true), Position::new(0, 23));
}

#[test]
fn merge_of_split_region_or_unknown_id_does_nothing() {
    let (mut a, mut root) = root_80x25();
    root.split(&mut a, SplitMode::Vertical, 50, false);
    root.split_region_by_id(2, &mut a, SplitMode::Horizon, 30, false);
    assert_eq!(root.merge(2), None);
    assert_eq!(root.merge(42), None);
    assert_eq!(root.merge(0), None);
    assert_eq!(leaves(&root), vec![1, 3, 4]);
}

#[test]
fn merge_inside_a_region() {
    let (mut a, mut root) = root_80x25();
    root.split(&mut a, SplitMode::Vertical, 50, false);
    root.split_region_by_id(2, &mut a, SplitMode::Horizon, 30, false);
    assert_eq!(root.merge_region_by_id(1, 3), None);
    let record = root.merge_region_by_id(2, 3);
    assert_eq!(record, Some(MergeRecord { father: 2, first: 3, second: 4, became_leaf: true }));
    assert_eq!(leaves(&root), vec![1, 2]);
}

#[test]
fn resplit_region_by_id_relays_out() {
    let (mut a, mut root) = root_80x25();
    root.split(&mut a, SplitMode::Vertical, 50, false);
    root.resplit_region_by_id(0, SplitData::Vertical(25));
    let (up, down) = root.children().unwrap();
    assert_eq!(up.height(true), 6);
    assert_eq!(down.position(true), Position::new(5, 0));
    assert_eq!(down.height(true), 19);
}

#[test]
fn region_info_reads_a_region() {
    let (mut a, mut root) = root_80x25();
    root.split(&mut a, SplitMode::Vertical, 50, false);
    let info = root.region_info(0).unwrap();
    assert_eq!(info.children, Some((1, 2)));
    assert_eq!(info.father, None);
    let info = root.region_info(2).unwrap();
    assert_eq!(info.father, Some(0));
    assert_eq!(info.inner_height, 11);
    assert_eq!(info.inner_width, 78);
    assert!(root.region_info(5).is_none());
}

#[test]
fn zoom_moves_share_within_bounds() {
    let mut sd = SplitData::Vertical(50);
    sd.zoom_up(5);
    assert_eq!(sd, SplitData::Vertical(55));
    sd.zoom_up(60);
    assert_eq!(sd, SplitData::Vertical(90));
    sd.zoom_down(85);
    assert_eq!(sd, SplitData::Vertical(10));
    let mut h = SplitData::Horizon(30);
    h.zoom_down(3);
    assert_eq!(h, SplitData::Horizon(27));
    let mut n = SplitData::NotSplit;
    n.zoom_up(5);
    n.zoom_down(5);
    assert_eq!(n, SplitData::NotSplit);
}

#[test]
fn zoom_up_then_down_restores_share() {
    let mut sd = SplitData::Horizon(40);
    sd.zoom_up(7);
    sd.zoom_down(7);
    assert_eq!(sd, SplitData::Horizon(40));
}

#[test]
fn static_region_setters() {
    let mut a = RegionIdAllocator::new();
    let mut r = StaticRegion::new(&mut a, 0, Position::new(0, 0), 10, 10);
    r.set_position(Position::new(2, 3));
    r.set_width(20);
    r.set_height(7);
    r.set_father(9);
    r.set_split_data(SplitData::Horizon(20));
    r.set_render_line_count_enabled(false);
    assert_eq!(r.position(true), Position::new(2, 3));
    assert_eq!(r.width(true), 20);
    assert_eq!(r.height(true), 7);
    assert_eq!(r.father_id(), Some(9));
    assert_eq!(r.split_data(), SplitData::Horizon(20));
    assert!(!r.render_line_count());
}

#[test]
fn root_father_cannot_be_set() {
    let (_, mut root) = root_80x25();
    root.set_father(3);
    assert_eq!(root.father_id(), None);
    assert!(root.render_line_count());
}

#[test]
fn resize_fits_for_small_and_large_terminals() {
    let mut m = Monitor::new(80, 25);
    assert!(m.resize_fits(120, 40));
    assert!(!m.resize_fits(120, 1));
    let b = BufferState { id: Some(1), cursor: Position::new(0, 0), data: String::new(), line_number_width: 2 };
    m.init_buffer(&b, None).unwrap();
    m.split_root_region(held::region::SplitMode::Vertical, 50, &b, false).unwrap();
    assert!(m.resize_fits(120, 40));
    assert!(!m.resize_fits(120, usize::MAX));
}

#[test]
fn can_split_tells_when_a_split_computes() {
    let (_, root) = root_80x25();
    assert!(root.can_split(1, SplitMode::Vertical, 50, false));
    assert!(root.can_split(1, SplitMode::Horizon, 30, true));
    assert!(!root.can_split(1, SplitMode::Vertical, usize::MAX, false));
    assert!(!root.can_split(1, SplitMode::Horizon, 0, false));
    let mut a = RegionIdAllocator::new();
    let tiny = RootRegion::new(&mut a, 80, 1);
    assert!(!tiny.can_split(1, SplitMode::Vertical, 50, false));
}

#[test]
fn can_split_at_looks_for_the_region() {
    let (mut a, mut root) = root_80x25();
    root.split(&mut a, SplitMode::Vertical, 50, false);
    assert!(root.can_split_at(2, 3, SplitMode::Horizon, 30, false));
    assert!(!root.can_split_at(2, 3, SplitMode::Horizon, usize::MAX, false));
    let (up, _) = root.children().unwrap();
    assert!(up.can_split(3, SplitMode::Horizon, 50, false));
    assert!(up.can_split_at(1, 3, SplitMode::Vertical, 50, true));
}

#[test]
fn can_merge_and_finds_merge() {
    let (mut a, mut root) = root_80x25();
    root.split(&mut a, SplitMode::Vertical, 50, false);
    root.split_region_by_id(2, &mut a, SplitMode::Horizon, 30, false);
    assert!(root.can_merge(1));
    assert!(root.can_merge_at(2, 3));
    let (_, down) = root.children().unwrap();
    assert!(down.finds_merge(3));
    assert!(!down.finds_merge(1));
    assert!(down.can_merge(4));
    assert!(down.can_merge_at(2, 3));
    let mut m = Monitor::new(80, 25);
    let b = BufferState { id: Some(1), cursor: Position::new(0, 0), data: String::new(), line_number_width: 2 };
    m.init_buffer(&b, None).unwrap();
    m.split_root_region(SplitMode::Vertical, 50, &b, false).unwrap();
    assert!(m.can_merge(0, 1));
    assert!(!m.can_merge(99, 1));
    assert!(m.merge(0, 1));
}

#[test]
fn resplit_fits_tells_when_a_new_share_computes() {
    let (mut a, mut root) = root_80x25();
    root.split(&mut a, SplitMode::Vertical, 50, false);
    assert!(root.resplit_fits(0, SplitData::Vertical(25)));
    assert!(!root.resplit_fits(0, SplitData::Vertical(usize::MAX)));
    let (up, _) = root.children().unwrap();
    assert!(up.resplit_fits(1, SplitData::NotSplit));
}
