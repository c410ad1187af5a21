use vstd::prelude::*;
use std::collections::HashMap;
use crate::geometry::Position;
use crate::region::{Region, RegionInfo, SplitData, RegionIdAllocator, RootRegion, following_id, lemma_unsplit_root_leaves, lemma_info_has_id, lemma_root_leaves_are_held, SplitMode, MergeRecord, MIN_SCALE, lemma_resplit_keeps_infos, lemma_resplit_twice, lemma_zoom_keeps_mode, lemma_zoom_up_then_down, lemma_zoom_down_then_up, lemma_resplit_fits_after};
use crate::region_controller::{RegionController, offset_into_monitor, window, centered_offset, scrolled_up, scrolled_down};
use crate::text::spec_lines;
use crate::render_cache::{RenderCache, RenderState, states_before};
use vstd::std_specs::iter::IteratorSpec;

verus! {

broadcast use vstd::std_specs::hash::group_hash_axioms;

/// What the layout code reads of a buffer.
#[derive(Debug)]
pub struct BufferState {
    /// The buffer's id, once the workspace has given it one.
    pub id: Option<usize>,
    pub cursor: Position,
    /// The buffer's text.
    pub data: String,
    /// Columns that the widest line number of the buffer takes.
    pub line_number_width: usize,
}

/// Why a layout request was refused.
#[derive(Debug, Clone, Copy, PartialEq, Eq, Structural)]
pub enum MonitorError {
    /// The buffer has no id yet.
    BufferWithoutId,
    /// No region controller is kept for the buffer.
    MissingBuffer,
    /// A buffer named in a swap has no region controller.
    UnknownBuffer,
}

/// `i` is the first index of `x` in `s`.
pub open spec fn is_first_index(s: Seq<u16>, i: int, x: u16) -> bool {
    &&& 0 <= i < s.len()
    &&& s[i] == x
    &&& forall|j: int| 0 <= j < i ==> s[j] != x
}

/// Both buffers have a controller and they are two buffers.
pub open spec fn swap_succeeds(c: Map<usize, RegionController>, l: usize, r: usize) -> bool {
    c.contains_key(l) && c.contains_key(r) && l != r
}

/// The controllers after the buffers `l` and `r` swap theirs. When `l` has
/// none, nothing changes; when `r` has none (or is `l`), `l`'s controller is
/// dropped.
pub open spec fn swapped(c: Map<usize, RegionController>, l: usize, r: usize) -> Map<usize, RegionController> {
    if !c.contains_key(l) {
        c
    } else if l == r || !c.contains_key(r) {
        c.remove(l)
    } else {
        c.insert(l, c[r]).insert(r, c[l])
    }
}

/// Swapping the controllers of two buffers twice gives them back.
pub proof fn lemma_swap_twice(c: Map<usize, RegionController>, l: usize, r: usize)
    requires
        swap_succeeds(c, l, r),
    ensures
        swap_succeeds(swapped(c, l, r), l, r),
        swapped(swapped(c, l, r), l, r) == c,
{
    assert(swapped(swapped(c, l, r), l, r) =~= c);
}

/// Which of the two buffers is named first makes no difference to a swap
/// that succeeds.
pub proof fn lemma_swap_symmetric(c: Map<usize, RegionController>, l: usize, r: usize)
    requires
        swap_succeeds(c, l, r),
    ensures
        swapped(c, l, r) == swapped(c, r, l),
{
    assert(swapped(c, l, r) =~= swapped(c, r, l));
}

/// Keeps the layout of the screen: the tree of regions, which buffer is
/// shown in which region and how far it is scrolled, and which leaf region
/// is selected.
pub struct Monitor {
    pub root_region: RootRegion,
    allocator: RegionIdAllocator,
    region_controllers: HashMap<usize, RegionController>,
    render_caches: HashMap<usize, RenderCache>,
    selected_region_index: usize,
    leaf_regions: Vec<u16>,
}

impl Monitor {
    pub closed spec fn spec_root(&self) -> RootRegion {
        self.root_region
    }

    /// The render cache of each buffer, by buffer id.
    pub closed spec fn spec_caches(&self) -> Map<usize, Map<usize, RenderState>> {
        self.render_caches@.map_values(|c: RenderCache| c@)
    }

    /// The render cache of the buffer `id`, as kept.
    pub closed spec fn render_cache_of(&self, id: usize) -> RenderCache {
        self.render_caches@[id]
    }

    /// The id the next new region takes.
    pub closed spec fn spec_next_id(&self) -> u16 {
        self.allocator.next_id()
    }

    /// The region controller of each buffer, by buffer id.
    pub closed spec fn spec_controllers(&self) -> Map<usize, RegionController> {
        self.region_controllers@
    }

    /// Index, in `spec_leaves`, of the selected region.
    pub closed spec fn spec_selected(&self) -> usize {
        self.selected_region_index
    }

    /// The ids of the leaf regions as last collected.
    pub closed spec fn spec_leaves(&self) -> Seq<u16> {
        self.leaf_regions@
    }

    /// A monitor for a terminal of the given size: the root region alone,
    /// selected, and no buffer.
    pub fn new(terminal_width: usize, terminal_height: usize) -> (m: Monitor)
        ensures
            m.spec_root().spec_id() == 0,
            m.spec_root().spec_children() is None,
            m.spec_root().spec_terminal_size() == (terminal_width, terminal_height),
            m.spec_next_id() == 1,
            m.spec_controllers() == Map::<usize, RegionController>::empty(),
            m.spec_selected() == 0,
            m.spec_leaves() == seq![0u16],
            m.spec_caches() == Map::<usize, Map<usize, RenderState>>::empty(),
    {
        let mut allocator = RegionIdAllocator::new();
        let root_region = RootRegion::new(&mut allocator, terminal_width, terminal_height);
        let mut leaf_regions: Vec<u16> = Vec::new();
        root_region.fill_leaf_regions(&mut leaf_regions);
        proof {
            assert(root_region.spec_leaf_ids() == seq![root_region.spec_id()]) by {
                lemma_unsplit_root_leaves(root_region);
            }
        }
        Monitor {
            root_region,
            allocator,
            region_controllers: HashMap::new(),
            render_caches: HashMap::new(),
            selected_region_index: 0,
            leaf_regions,
        }
    }
}


impl Monitor {
    /// The region a buffer's controller is bound to when it is given `region_id`:
    /// that leaf if it is one, else the selected leaf.
    pub open spec fn leaf_or_selected(self, region_id: u16) -> u16 {
        if self.spec_leaves().contains(region_id) {
            region_id
        } else {
            self.spec_leaves()[self.spec_selected() as int]
        }
    }

    /// Where a buffer given `region_id` is shown: in that region when it is a
    /// leaf, else in the selected leaf; either way in a leaf.
    pub proof fn lemma_leaf_or_selected(self, region_id: u16)
        requires
            self.spec_selected() < self.spec_leaves().len(),
        ensures
            self.spec_leaves().contains(region_id) ==> self.leaf_or_selected(region_id) == region_id,
            !self.spec_leaves().contains(region_id) ==> self.leaf_or_selected(region_id)
                == self.spec_leaves()[self.spec_selected() as int],
            self.spec_leaves().contains(self.leaf_or_selected(region_id)),
    {
        if !self.spec_leaves().contains(region_id) {
            assert(self.spec_leaves()[self.spec_selected() as int] == self.leaf_or_selected(region_id));
        }
    }

    /// Selects the first leaf with id `region`.
    fn update_selected_region_index(&mut self, region: u16)
        requires
            old(self).spec_leaves().contains(region),
        ensures
            final(self).spec_caches() == old(self).spec_caches(),
            is_first_index(final(self).spec_leaves(), final(self).spec_selected() as int, region),
            final(self).spec_root() == old(self).spec_root(),
            final(self).spec_next_id() == old(self).spec_next_id(),
            final(self).spec_controllers() == old(self).spec_controllers(),
            final(self).spec_leaves() == old(self).spec_leaves(),
    {
        let mut i: usize = 0;
        while i < self.leaf_regions.len()
            invariant
                self.leaf_regions@ == old(self).spec_leaves(),
                self.root_region == old(self).spec_root(),
                self.allocator.next_id() == old(self).spec_next_id(),
                self.region_controllers@ == old(self).spec_controllers(),
                self.render_caches@ == old(self).render_caches@,
                old(self).spec_leaves().contains(region),
                i <= self.leaf_regions@.len(),
                forall|j: int| 0 <= j < i ==> self.leaf_regions@[j] != region,
            decreases self.leaf_regions@.len() - i,
        {
            if self.leaf_regions[i] == region {
                self.selected_region_index = i;
                return;
            }
            i += 1;
        }
        proof {
            let k = choose|k: int| 0 <= k < self.leaf_regions@.len() && self.leaf_regions@[k] == region;
            assert(self.leaf_regions@[k] != region);
        }
    }

    /// Selects the leaf that the buffer `buffer_id` is shown in.
    pub fn update_selected_region(&mut self, buffer_id: usize) -> (r: Result<(), MonitorError>)
        requires
            old(self).spec_controllers().contains_key(buffer_id) ==> old(self).spec_leaves().contains(
                old(self).spec_controllers()[buffer_id].spec_region(),
            ),
        ensures
            final(self).spec_caches() == old(self).spec_caches(),
            final(self).spec_root() == old(self).spec_root(),
            final(self).spec_next_id() == old(self).spec_next_id(),
            final(self).spec_controllers() == old(self).spec_controllers(),
            final(self).spec_leaves() == old(self).spec_leaves(),
            match r {
                Result::Ok(()) => old(self).spec_controllers().contains_key(buffer_id) && is_first_index(
                    final(self).spec_leaves(),
                    final(self).spec_selected() as int,
                    old(self).spec_controllers()[buffer_id].spec_region(),
                ),
                Result::Err(e) => e == MonitorError::MissingBuffer && !old(self).spec_controllers().contains_key(buffer_id)
                    && final(self).spec_selected() == old(self).spec_selected(),
            },
    {
        let region = match self.region_controllers.get(&buffer_id) {
            Option::Some(controller) => controller.region(),
            Option::None => return Result::Err(MonitorError::MissingBuffer),
        };
        self.update_selected_region_index(region);
        Result::Ok(())
    }

    /// Exchanges the region controllers of the buffers `l` and `r`. When `l`
    /// has none, nothing changes; when `r` has none (or is `l`), `l`'s
    /// controller is dropped.
    pub fn swap_buffer_region(&mut self, l: usize, r: usize) -> (res: Result<(), MonitorError>)
        ensures
            final(self).spec_caches() == old(self).spec_caches(),
            final(self).spec_root() == old(self).spec_root(),
            final(self).spec_next_id() == old(self).spec_next_id(),
            final(self).spec_selected() == old(self).spec_selected(),
            final(self).spec_leaves() == old(self).spec_leaves(),
            final(self).spec_controllers() == swapped(old(self).spec_controllers(), l, r),
            res is Ok <==> swap_succeeds(old(self).spec_controllers(), l, r),
            res is Err ==> res == Result::<(), MonitorError>::Err(MonitorError::UnknownBuffer),
    {
        let left = match self.region_controllers.remove(&l) {
            Option::Some(c) => c,
            Option::None => return Result::Err(MonitorError::UnknownBuffer),
        };
        let right = match self.region_controllers.remove(&r) {
            Option::Some(c) => c,
            Option::None => return Result::Err(MonitorError::UnknownBuffer),
        };
        self.region_controllers.insert(l, right);
        self.region_controllers.insert(r, left);
        proof {
            assert(self.region_controllers@ =~= swapped(old(self).spec_controllers(), l, r));
        }
        Result::Ok(())
    }

    /// `swap_buffer_region` with the selected region's index as the first buffer id.
    pub fn swap_selected_buffer_region(&mut self, buffer_id: usize) -> (res: Result<(), MonitorError>)
        ensures
            final(self).spec_caches() == old(self).spec_caches(),
            final(self).spec_root() == old(self).spec_root(),
            final(self).spec_next_id() == old(self).spec_next_id(),
            final(self).spec_selected() == old(self).spec_selected(),
            final(self).spec_leaves() == old(self).spec_leaves(),
            final(self).spec_controllers() == swapped(old(self).spec_controllers(), old(self).spec_selected(), buffer_id),
            res is Ok <==> swap_succeeds(old(self).spec_controllers(), old(self).spec_selected(), buffer_id),
            res is Err ==> res == Result::<(), MonitorError>::Err(MonitorError::UnknownBuffer),
    {
        let selected = self.selected_region_index;
        self.swap_buffer_region(selected, buffer_id)
    }

    /// Shows `buffer` in the region `region_id` (the selected leaf if that is
    /// no leaf), or in the root when no region is named, scrolled to its cursor
    /// line, and gives it a new, empty render cache. When the buffer changes,
    /// its owner calls `buffer_changed`, which drops the cached states from
    /// the changed line on.
    pub fn init_buffer(&mut self, buffer: &BufferState, region_id: Option<u16>) -> (r: Result<(), MonitorError>)
        requires
            region_id is Some ==> old(self).spec_selected() < old(self).spec_leaves().len(),
        ensures
            final(self).spec_root() == old(self).spec_root(),
            final(self).spec_next_id() == old(self).spec_next_id(),
            final(self).spec_selected() == old(self).spec_selected(),
            final(self).spec_leaves() == old(self).spec_leaves(),
            match buffer.id {
                Option::Some(id) => r == Result::<(), MonitorError>::Ok(()) && final(self).spec_controllers()
                    == old(self).spec_controllers().insert(
                    id,
                    RegionController::at(
                        match region_id {
                            Option::Some(rid) => old(self).leaf_or_selected(rid),
                            Option::None => old(self).spec_root().spec_id(),
                        },
                        buffer.cursor.line,
                    ),
                ) && final(self).spec_caches() == old(self).spec_caches().insert(id, Map::empty()),
                Option::None => r == Result::<(), MonitorError>::Err(MonitorError::BufferWithoutId)
                    && final(self).spec_controllers() == old(self).spec_controllers()
                    && final(self).spec_caches() == old(self).spec_caches(),
            },
            buffer.id matches Option::Some(id) ==> {
                &&& final(self).spec_controllers().contains_key(id)
                &&& final(self).spec_controllers()[id].spec_line_offset() == buffer.cursor.line
                &&& region_id is None ==> final(self).spec_controllers()[id].spec_region() == old(self).spec_root().spec_id()
                &&& region_id is Some && old(self).spec_leaves().contains(region_id.unwrap())
                    ==> final(self).spec_controllers()[id].spec_region() == region_id.unwrap()
                &&& region_id is Some && !old(self).spec_leaves().contains(region_id.unwrap())
                    ==> final(self).spec_controllers()[id].spec_region()
                    == old(self).spec_leaves()[old(self).spec_selected() as int]
            },
    {
        let region = match region_id {
            Option::Some(rid) => self.leaf_or_selected_exec(rid),
            Option::None => self.root_region.id(),
        };
        let id = match buffer.id {
            Option::Some(id) => id,
            Option::None => return Result::Err(MonitorError::BufferWithoutId),
        };
        self.region_controllers.insert(id, RegionController::new(region, buffer.cursor.line));
        self.render_caches.insert(id, RenderCache::new());
        proof {
            assert(self.spec_caches() =~= old(self).spec_caches().insert(id, Map::empty()));
            RegionController::lemma_at_reads_back(region, buffer.cursor.line);
        }
        Result::Ok(())
    }

    /// `leaf_or_selected`, computed.
    fn leaf_or_selected_exec(&self, region_id: u16) -> (r: u16)
        requires
            self.spec_selected() < self.spec_leaves().len(),
        ensures
            r == self.leaf_or_selected(region_id),
            self.spec_leaves().contains(region_id) ==> r == region_id,
            !self.spec_leaves().contains(region_id) ==> r == self.spec_leaves()[self.spec_selected() as int],
    {
        let mut i: usize = 0;
        while i < self.leaf_regions.len()
            invariant
                i <= self.leaf_regions@.len(),
                forall|j: int| 0 <= j < i ==> self.leaf_regions@[j] != region_id,
            decreases self.leaf_regions@.len() - i,
        {
            if self.leaf_regions[i] == region_id {
                return region_id;
            }
            i += 1;
        }
        self.leaf_regions[self.selected_region_index]
    }

    /// Shows `buffer` in the region `region_id` (the selected leaf if that is
    /// no leaf), scrolled to its cursor line, in place of where it was shown.
    pub fn bind_region(&mut self, buffer: &BufferState, region_id: u16) -> (r: Result<(), MonitorError>)
        requires
            old(self).spec_selected() < old(self).spec_leaves().len(),
        ensures
            final(self).spec_caches() == old(self).spec_caches(),
            final(self).spec_root() == old(self).spec_root(),
            final(self).spec_next_id() == old(self).spec_next_id(),
            final(self).spec_selected() == old(self).spec_selected(),
            final(self).spec_leaves() == old(self).spec_leaves(),
            match buffer.id {
                Option::Some(id) => r == Result::<(), MonitorError>::Ok(()) && final(self).spec_controllers()
                    == old(self).spec_controllers().insert(
                    id,
                    RegionController::at(old(self).leaf_or_selected(region_id), buffer.cursor.line),
                ),
                Option::None => r == Result::<(), MonitorError>::Err(MonitorError::BufferWithoutId)
                    && final(self).spec_controllers() == old(self).spec_controllers(),
            },
            buffer.id matches Option::Some(id) ==> {
                &&& final(self).spec_controllers().contains_key(id)
                &&& final(self).spec_controllers()[id].spec_line_offset() == buffer.cursor.line
                &&& old(self).spec_leaves().contains(region_id) ==> final(self).spec_controllers()[id].spec_region()
                    == region_id
                &&& !old(self).spec_leaves().contains(region_id) ==> final(self).spec_controllers()[id].spec_region()
                    == old(self).spec_leaves()[old(self).spec_selected() as int]
                &&& forall|k: usize| k != id ==> #[trigger] final(self).spec_controllers().contains_key(k)
                    == old(self).spec_controllers().contains_key(k)
                    && (old(self).spec_controllers().contains_key(k) ==> final(self).spec_controllers()[k]
                    == old(self).spec_controllers()[k])
            },
    {
        let region = self.leaf_or_selected_exec(region_id);
        let id = match buffer.id {
            Option::Some(id) => id,
            Option::None => return Result::Err(MonitorError::BufferWithoutId),
        };
        self.region_controllers.remove(&id);
        self.region_controllers.insert(id, RegionController::new(region, buffer.cursor.line));
        proof {
            assert(self.region_controllers@ =~= old(self).spec_controllers().insert(
                id,
                RegionController::at(old(self).leaf_or_selected(region_id), buffer.cursor.line),
            ));
            RegionController::lemma_at_reads_back(old(self).leaf_or_selected(region_id), buffer.cursor.line);
        }
        Result::Ok(())
    }

    /// Forgets where `buffer` is shown.
    pub fn deinit_buffer(&mut self, buffer: &BufferState) -> (r: Result<(), MonitorError>)
        ensures
            final(self).spec_root() == old(self).spec_root(),
            final(self).spec_next_id() == old(self).spec_next_id(),
            final(self).spec_selected() == old(self).spec_selected(),
            final(self).spec_leaves() == old(self).spec_leaves(),
            match buffer.id {
                Option::Some(id) => r == Result::<(), MonitorError>::Ok(())
                    && final(self).spec_controllers() == old(self).spec_controllers().remove(id)
                    && final(self).spec_caches() == old(self).spec_caches().remove(id),
                Option::None => r == Result::<(), MonitorError>::Err(MonitorError::BufferWithoutId)
                    && final(self).spec_controllers() == old(self).spec_controllers()
                    && final(self).spec_caches() == old(self).spec_caches(),
            },
    {
        let id = match buffer.id {
            Option::Some(id) => id,
            Option::None => return Result::Err(MonitorError::BufferWithoutId),
        };
        self.region_controllers.remove(&id);
        self.render_caches.remove(&id);
        proof {
            assert(self.spec_caches() =~= old(self).spec_caches().remove(id));
        }
        Result::Ok(())
    }

    /// What a buffer's change callback does: the buffer `buffer_id` changed at
    /// `position`, so the render states cached for that line and every line
    /// after it are dropped. A buffer without a cache is left alone.
    pub fn buffer_changed(&mut self, buffer_id: usize, position: Position)
        ensures
            final(self).spec_root() == old(self).spec_root(),
            final(self).spec_next_id() == old(self).spec_next_id(),
            final(self).spec_controllers() == old(self).spec_controllers(),
            final(self).spec_selected() == old(self).spec_selected(),
            final(self).spec_leaves() == old(self).spec_leaves(),
            final(self).spec_caches() == if old(self).spec_caches().contains_key(buffer_id) {
                old(self).spec_caches().insert(
                    buffer_id,
                    states_before(old(self).spec_caches()[buffer_id], position.line),
                )
            } else {
                old(self).spec_caches()
            },
    {
        if self.render_caches.contains_key(&buffer_id) {
            let ghost before = self.render_caches@;
            let cache = self.render_caches.entry(buffer_id).or_insert(RenderCache::new());
            cache.retain_before(position.line);
            proof {
                assert(self.spec_caches() =~= old(self).spec_caches().insert(
                    buffer_id,
                    states_before(old(self).spec_caches()[buffer_id], position.line),
                ));
            }
        }
    }

    /// The render cache of `buffer`, to be read and filled in place.
    pub fn get_render_cache(&mut self, buffer: &BufferState) -> (r: &mut RenderCache)
        requires
            buffer.id matches Option::Some(id) && old(self).spec_caches().contains_key(id),
        ensures
            *r == old(self).render_cache_of(buffer.id.unwrap()),
            final(self).spec_caches() == old(self).spec_caches().insert(buffer.id.unwrap(), final(r)@),
            final(self).spec_root() == old(self).spec_root(),
            final(self).spec_next_id() == old(self).spec_next_id(),
            final(self).spec_controllers() == old(self).spec_controllers(),
            final(self).spec_selected() == old(self).spec_selected(),
            final(self).spec_leaves() == old(self).spec_leaves(),
    {
        let id = buffer.id.unwrap();
        let ghost before = self.render_caches@;
        // the cache is there, so this inserts nothing
        let r = self.render_caches.entry(id).or_insert(RenderCache::new());
        proof {
            assert(*r == before[id]);
        }
        r
    }

    /// The region controller of `buffer`, to be changed in place.
    pub fn get_region_controller(&mut self, buffer: &BufferState) -> (r: &mut RegionController)
        requires
            buffer.id matches Option::Some(id) && old(self).spec_controllers().contains_key(id),
        ensures
            final(self).spec_caches() == old(self).spec_caches(),
            *r == old(self).spec_controllers()[buffer.id.unwrap()],
            final(self).spec_controllers() == old(self).spec_controllers().insert(buffer.id.unwrap(), *final(r)),
            final(self).spec_root() == old(self).spec_root(),
            final(self).spec_next_id() == old(self).spec_next_id(),
            final(self).spec_selected() == old(self).spec_selected(),
            final(self).spec_leaves() == old(self).spec_leaves(),
    {
        let id = buffer.id.unwrap();
        // the controller is there, so this inserts nothing
        self.region_controllers.entry(id).or_insert(RegionController::new(0, 0))
    }
}


impl Monitor {
    /// The controller of the buffer `id`.
    pub open spec fn controller_of(self, id: usize) -> RegionController {
        self.spec_controllers()[id]
    }

    /// Height and width, inside the border, of the region a buffer's
    /// controller is bound to.
    pub open spec fn view_size_of(self, id: usize) -> (usize, usize) {
        let info = self.spec_root().spec_info(self.controller_of(id).spec_region()).unwrap();
        (info.inner_height, info.inner_width)
    }

    /// The buffer has an id, a controller, and the controller's region is in the tree.
    pub open spec fn shows(self, buffer: &BufferState) -> bool {
        &&& buffer.id is Some
        &&& self.spec_controllers().contains_key(buffer.id.unwrap())
        &&& self.spec_root().holds_region(self.controller_of(buffer.id.unwrap()).spec_region())
    }

    /// Scrolls `buffer` so that its cursor line comes into view; see
    /// `RegionController::scroll_into_monitor`.
    pub fn scroll_to_cursor(&mut self, buffer: &BufferState) -> (r: Result<(), MonitorError>)
        requires
            old(self).shows(buffer),
            ({
                let id = buffer.id.unwrap();
                let c = old(self).controller_of(id);
                let (h, w) = old(self).view_size_of(id);
                c.spec_line_offset() <= buffer.cursor.line ==> {
                    &&& buffer.line_number_width + 1 <= w
                    &&& c.spec_line_offset() < usize::MAX
                    &&& (w == buffer.line_number_width + 1 ==> window(spec_lines(buffer.data@), c.spec_line_offset() as nat, h as nat).len() == 0)
                }
            }),
        ensures
            final(self).spec_caches() == old(self).spec_caches(),
            r == Result::<(), MonitorError>::Ok(()),
            final(self).spec_root() == old(self).spec_root(),
            final(self).spec_next_id() == old(self).spec_next_id(),
            final(self).spec_selected() == old(self).spec_selected(),
            final(self).spec_leaves() == old(self).spec_leaves(),
            ({
                let id = buffer.id.unwrap();
                let c = old(self).controller_of(id);
                let (h, w) = old(self).view_size_of(id);
                final(self).spec_controllers() == old(self).spec_controllers().insert(
                    id,
                    RegionController::at(
                        c.spec_region(),
                        offset_into_monitor(
                            c.spec_line_offset() as nat,
                            h as nat,
                            w as nat,
                            buffer.cursor.line as nat,
                            buffer.data@,
                            buffer.line_number_width as nat,
                        ) as usize,
                    ),
                )
            }),
    {
        let region = self.get_region_controller(buffer).region();
        let info = self.root_region.region_info(region).unwrap();
        let controller = self.get_region_controller(buffer);
        controller.scroll_into_monitor(
            info.inner_height,
            info.inner_width,
            buffer.cursor.line,
            buffer.data.as_str(),
            buffer.line_number_width,
        );
        proof {
            RegionController::lemma_at(*controller);
        }
        Result::Ok(())
    }

    /// Scrolls `buffer` so that its cursor line is in the middle of its region.
    pub fn scroll_to_center(&mut self, buffer: &BufferState) -> (r: Result<(), MonitorError>)
        requires
            old(self).shows(buffer),
        ensures
            final(self).spec_caches() == old(self).spec_caches(),
            r == Result::<(), MonitorError>::Ok(()),
            final(self).spec_root() == old(self).spec_root(),
            final(self).spec_next_id() == old(self).spec_next_id(),
            final(self).spec_selected() == old(self).spec_selected(),
            final(self).spec_leaves() == old(self).spec_leaves(),
            ({
                let id = buffer.id.unwrap();
                final(self).spec_controllers() == old(self).spec_controllers().insert(
                    id,
                    RegionController::at(
                        old(self).controller_of(id).spec_region(),
                        centered_offset(old(self).view_size_of(id).0 as nat, buffer.cursor.line as nat) as usize,
                    ),
                )
            }),
    {
        let region = self.get_region_controller(buffer).region();
        let info = self.root_region.region_info(region).unwrap();
        let controller = self.get_region_controller(buffer);
        controller.scroll_to_center(info.inner_height, buffer.cursor.line);
        proof {
            RegionController::lemma_at(*controller);
        }
        Result::Ok(())
    }

    /// Scrolls `buffer` up `count` lines.
    pub fn scroll_up(&mut self, buffer: &BufferState, count: usize)
        requires
            buffer.id matches Option::Some(id) && old(self).spec_controllers().contains_key(id),
        ensures
            final(self).spec_caches() == old(self).spec_caches(),
            final(self).spec_root() == old(self).spec_root(),
            final(self).spec_next_id() == old(self).spec_next_id(),
            final(self).spec_selected() == old(self).spec_selected(),
            final(self).spec_leaves() == old(self).spec_leaves(),
            ({
                let id = buffer.id.unwrap();
                let c = old(self).controller_of(id);
                final(self).spec_controllers() == old(self).spec_controllers().insert(
                    id,
                    RegionController::at(c.spec_region(), scrolled_up(c.spec_line_offset() as nat, count as nat) as usize),
                )
            }),
    {
        let controller = self.get_region_controller(buffer);
        controller.scroll_up(count);
        proof {
            RegionController::lemma_at(*controller);
        }
    }

    /// Scrolls `buffer` down `count` lines.
    pub fn scroll_down(&mut self, buffer: &BufferState, count: usize)
        requires
            buffer.id matches Option::Some(id) && old(self).spec_controllers().contains_key(id),
        ensures
            final(self).spec_caches() == old(self).spec_caches(),
            final(self).spec_root() == old(self).spec_root(),
            final(self).spec_next_id() == old(self).spec_next_id(),
            final(self).spec_selected() == old(self).spec_selected(),
            final(self).spec_leaves() == old(self).spec_leaves(),
            ({
                let id = buffer.id.unwrap();
                let c = old(self).controller_of(id);
                final(self).spec_controllers() == old(self).spec_controllers().insert(
                    id,
                    RegionController::at(c.spec_region(), scrolled_down(c.spec_line_offset() as nat, count as nat) as usize),
                )
            }),
    {
        let controller = self.get_region_controller(buffer);
        controller.scroll_down(count);
        proof {
            RegionController::lemma_at(*controller);
        }
    }
}


impl Monitor {
    /// The id of the selected leaf region.
    pub open spec fn selected_leaf(self) -> u16 {
        self.spec_leaves()[self.spec_selected() as int]
    }

    /// The father of the selected leaf, as found in the tree, if it has one.
    pub open spec fn selected_father(self) -> Option<RegionInfo> {
        match self.spec_root().spec_info(self.selected_leaf()).unwrap().father {
            Option::Some(fid) => self.spec_root().spec_info(fid),
            Option::None => Option::None,
        }
    }

    /// The father's new share when the selected leaf grows (`grow`) or
    /// shrinks by `step`: the first child's share moves with the leaf when
    /// the leaf is the first child, against it otherwise.
    pub open spec fn zoomed_share(self, father: RegionInfo, step: usize, grow: bool) -> SplitData {
        let leaf_is_first = father.children.unwrap().0 == self.selected_leaf();
        if leaf_is_first == grow {
            father.split_data.spec_zoom_up(step)
        } else {
            father.split_data.spec_zoom_down(step)
        }
    }

    /// A zoom by `step` can be made.
    pub open spec fn zoom_fits(self, step: usize, grow: bool) -> bool {
        &&& self.spec_selected() < self.spec_leaves().len()
        &&& self.spec_root().holds_region(self.selected_leaf())
        &&& (self.selected_father() matches Option::Some(f) ==> {
            &&& f.children is Some
            &&& (f.split_data.scale() matches Option::Some(s) ==> if (f.children.unwrap().0 == self.selected_leaf()) == grow {
                s + step <= usize::MAX
            } else {
                s >= step
            })
            &&& self.spec_root().resplit_at_computes(f.id, self.zoomed_share(f, step, grow))
        })
    }

    /// The tree after a zoom of the selected leaf by `step`.
    pub open spec fn zoomed_root(self, step: usize, grow: bool) -> RootRegion {
        match self.selected_father() {
            Option::Some(f) => self.spec_root().resplit_at(f.id, self.zoomed_share(f, step, grow)),
            Option::None => self.spec_root(),
        }
    }

    fn zoom(&mut self, step: usize, grow: bool)
        requires
            old(self).zoom_fits(step, grow),
        ensures
            final(self).spec_caches() == old(self).spec_caches(),
            final(self).spec_root() == old(self).zoomed_root(step, grow),
            final(self).spec_next_id() == old(self).spec_next_id(),
            final(self).spec_controllers() == old(self).spec_controllers(),
            final(self).spec_selected() == old(self).spec_selected(),
            final(self).spec_leaves() == old(self).spec_leaves(),
    {
        let region = self.leaf_regions[self.selected_region_index];
        let father_id = self.root_region.region_info(region).unwrap().father;
        if let Option::Some(father_id) = father_id {
            if let Option::Some(father) = self.root_region.region_info(father_id) {
                let (first, _) = father.children.unwrap();
                let mut split_data = father.split_data;
                if (first == region) == grow {
                    split_data.zoom_up(step);
                } else {
                    split_data.zoom_down(step);
                }
                proof {
                    assert(self.root_region.spec_info(father_id) == Option::Some(father));
                    assert(father.id == father_id) by {
                        lemma_info_has_id(self.root_region, father_id);
                    }
                }
                self.root_region.resplit_region_by_id(father_id, split_data);
            }
        }
    }

    /// Whether a zoom of the selected leaf by `step` can be made; see `zoom_fits`.
    pub fn can_zoom(&self, step: usize, grow: bool) -> (r: bool)
        ensures
            r == self.zoom_fits(step, grow),
    {
        if self.selected_region_index >= self.leaf_regions.len() {
            return false;
        }
        let region = self.leaf_regions[self.selected_region_index];
        let info = match self.root_region.region_info(region) {
            Option::Some(info) => info,
            Option::None => {
                return false;
            },
        };
        let father_id = match info.father {
            Option::Some(father_id) => father_id,
            Option::None => {
                return true;
            },
        };
        let father = match self.root_region.region_info(father_id) {
            Option::Some(father) => father,
            Option::None => {
                return true;
            },
        };
        let first = match father.children {
            Option::Some((first, _)) => first,
            Option::None => {
                return false;
            },
        };
        let leaf_grows_first = (first == region) == grow;
        let scale_fits = match father.split_data {
            SplitData::NotSplit => true,
            SplitData::Vertical(s) | SplitData::Horizon(s) => if leaf_grows_first {
                s <= usize::MAX - step
            } else {
                s >= step
            },
        };
        if !scale_fits {
            return false;
        }
        let mut split_data = father.split_data;
        if leaf_grows_first {
            split_data.zoom_up(step);
        } else {
            split_data.zoom_down(step);
        }
        proof {
            lemma_info_has_id(self.root_region, father_id);
            assert(self.selected_father() == Option::Some(father));
            assert(split_data == self.zoomed_share(father, step, grow));
        }
        self.root_region.resplit_fits(father.id, split_data)
    }

    /// Grows the selected leaf by `step` percent of its father's area.
    pub fn zoom_up(&mut self, step: usize)
        requires
            old(self).zoom_fits(step, true),
        ensures
            final(self).spec_caches() == old(self).spec_caches(),
            final(self).spec_root() == old(self).zoomed_root(step, true),
            final(self).spec_next_id() == old(self).spec_next_id(),
            final(self).spec_controllers() == old(self).spec_controllers(),
            final(self).spec_selected() == old(self).spec_selected(),
            final(self).spec_leaves() == old(self).spec_leaves(),
    {
        self.zoom(step, true);
    }

    /// Shrinks the selected leaf by `step` percent of its father's area.
    pub fn zoom_down(&mut self, step: usize)
        requires
            old(self).zoom_fits(step, false),
        ensures
            final(self).spec_caches() == old(self).spec_caches(),
            final(self).spec_root() == old(self).zoomed_root(step, false),
            final(self).spec_next_id() == old(self).spec_next_id(),
            final(self).spec_controllers() == old(self).spec_controllers(),
            final(self).spec_selected() == old(self).spec_selected(),
            final(self).spec_leaves() == old(self).spec_leaves(),
    {
        self.zoom(step, false);
    }

    /// Whether `handle_resize` can lay the regions out for a terminal of
    /// `width` by `height`.
    pub fn resize_fits(&self, terminal_width: usize, terminal_height: usize) -> (r: bool)
        ensures
            r == self.spec_root().with_terminal_size(terminal_width, terminal_height).resize_fits(),
    {
        self.root_region.resize_fits_for(terminal_width, terminal_height)
    }

    /// Records a new terminal size and lays all regions out for it.
    pub fn handle_resize(&mut self, terminal_width: usize, terminal_height: usize)
        requires
            old(self).spec_root().with_terminal_size(terminal_width, terminal_height).resize_fits(),
        ensures
            final(self).spec_caches() == old(self).spec_caches(),
            final(self).spec_root() == old(self).spec_root().with_terminal_size(terminal_width, terminal_height).resized(),
            final(self).spec_next_id() == old(self).spec_next_id(),
            final(self).spec_controllers() == old(self).spec_controllers(),
            final(self).spec_selected() == old(self).spec_selected(),
            final(self).spec_leaves() == old(self).spec_leaves(),
    {
        self.root_region.set_terminal_size(terminal_width, terminal_height);
        self.root_region.handle_resize();
    }
}


/// Zooming the selected region by `step` and then zooming it the other way
/// by the same step gives back its father laid out by the share it started
/// from, when neither zoom is held back by a bound of the zoom range.
pub proof fn lemma_zoom_then_back(m: Monitor, m2: Monitor, step: usize, grow: bool)
    requires
        m.zoom_fits(step, grow),
        m2.spec_root() == m.zoomed_root(step, grow),
        m2.spec_leaves() == m.spec_leaves(),
        m2.spec_selected() == m.spec_selected(),
        m.selected_father() matches Option::Some(f) ==> (f.split_data.scale() matches Option::Some(s) ==> if (
        f.children.unwrap().0 == m.selected_leaf()) == grow {
            MIN_SCALE <= s && s + step <= 100 - MIN_SCALE
        } else {
            s >= step && s - step >= MIN_SCALE && s <= 100 - MIN_SCALE
        }),
    ensures
        m2.zoomed_root(step, !grow) == match m.selected_father() {
            Option::Some(f) => m.spec_root().resplit_at(f.id, f.split_data),
            Option::None => m.spec_root(),
        },
        m2.zoom_fits(step, !grow) == match m.selected_father() {
            Option::Some(f) => m.spec_root().resplit_at_computes(f.id, f.split_data),
            Option::None => true,
        },
{
    let root = m.spec_root();
    let leaf = m.selected_leaf();
    assert(m2.selected_leaf() == leaf);
    lemma_info_has_id(root, leaf);
    match m.selected_father() {
        Option::Some(f) => {
            let fid = root.spec_info(leaf).unwrap().father.unwrap();
            lemma_info_has_id(root, fid);
            assert(f.id == fid);
            let z = m.zoomed_share(f, step, grow);
            let root2 = root.resplit_at(f.id, z);
            assert(m2.spec_root() == root2);
            lemma_resplit_keeps_infos(root, f.id, z, leaf);
            lemma_resplit_keeps_infos(root, f.id, z, fid);
            let f2 = root2.spec_info(fid).unwrap();
            assert(m2.selected_father() == Option::Some(f2));
            assert(f2.id == f.id && f2.children == f.children && f2.split_data == z);
            lemma_zoom_keeps_mode(f.split_data, step);
            if (f.children.unwrap().0 == leaf) == grow {
                lemma_zoom_up_then_down(f.split_data, step);
            } else {
                lemma_zoom_down_then_up(f.split_data, step);
            }
            assert(m2.zoomed_share(f2, step, !grow) == f.split_data);
            lemma_resplit_twice(root, f.id, z, f.split_data);
            lemma_resplit_fits_after(root, f.id, z, f.split_data);
            lemma_info_has_id(root2, leaf);
            assert(m2.spec_root().holds_region(m2.selected_leaf()));
        },
        Option::None => {
            assert(m2.spec_root() == root);
            assert(m2.selected_father() is None);
        },
    }
}

/// `after` is `before` with the region of at most one controller changed from
/// `from` to `to`: of one controller bound to `from`, which one left open,
/// and of none when no controller is bound to `from`.
pub open spec fn replaced_once(
    before: Map<usize, RegionController>,
    after: Map<usize, RegionController>,
    from: u16,
    to: u16,
) -> bool {
    ||| exists|k: usize|
        #![trigger before[k]]
        before.contains_key(k) && before[k].spec_region() == from && after == before.insert(
            k,
            RegionController::at(to, before[k].spec_line_offset()),
        )
    ||| (forall|k: usize| #[trigger] before.contains_key(k) ==> before[k].spec_region() != from) && after == before
}

impl Monitor {
    /// Binds one controller that shows the region `region` (any one, as the
    /// map happens to be walked) to `replace` instead.
    fn replace_region(&mut self, region: u16, replace: u16)
        ensures
            final(self).spec_caches() == old(self).spec_caches(),
            replaced_once(old(self).spec_controllers(), final(self).spec_controllers(), region, replace),
            final(self).spec_root() == old(self).spec_root(),
            final(self).spec_next_id() == old(self).spec_next_id(),
            final(self).spec_selected() == old(self).spec_selected(),
            final(self).spec_leaves() == old(self).spec_leaves(),
    {
        let mut found: Option<usize> = Option::None;
        for k in it: self.region_controllers.keys()
            invariant
                it.seq() == vstd::std_specs::hash::spec_keys_iter(&self.region_controllers).remaining(),
                found matches Option::Some(x) ==> self.region_controllers@.contains_key(x)
                    && self.region_controllers@[x].spec_region() == region,
                found is None ==> forall|j: int| 0 <= j < it.index() ==>
                    #[trigger] self.region_controllers@[*it.seq()[j]].spec_region() != region,
        {
            if found.is_none() {
                let controller = self.region_controllers.get(k).unwrap();
                if controller.region() == region {
                    found = Option::Some(*k);
                }
            }
        }
        match found {
            Option::Some(k) => {
                let mut controller: RegionController = *self.region_controllers.get(&k).unwrap();
                controller.set_region(replace);
                self.region_controllers.insert(k, controller);
            },
            Option::None => {
                proof {
                    let keys = vstd::std_specs::hash::spec_keys_iter(&self.region_controllers).remaining();
                    assert forall|k: usize| #[trigger] self.region_controllers@.contains_key(k) implies
                        self.region_controllers@[k].spec_region() != region by {
                        assert(keys.unref().to_set().contains(k));
                        let j = choose|j: int| 0 <= j < keys.unref().len() && keys.unref()[j] == k;
                        assert(*keys[j] == k);
                    }
                }
            },
        }
    }
}


impl Monitor {
    /// The tree after `split_region` splits the region `region_id`.
    pub open spec fn split_root(self, region_id: u16, split_mode: SplitMode, scale: usize, layout_first: bool) -> RootRegion {
        self.spec_root().split_at(region_id, self.spec_next_id(), split_mode, scale, layout_first)
    }

    /// The half of the split region that a buffer shown in it moves to: the
    /// second when `layout_first` holds, else the first.
    pub open spec fn moved_to(self, layout_first: bool) -> u16 {
        if layout_first { following_id(self.spec_next_id()) } else { self.spec_next_id() }
    }

    /// `split_region` can be carried out without overflow or a missing region.
    pub open spec fn split_region_fits(
        self,
        region_id: u16,
        split_mode: SplitMode,
        scale: usize,
        buffer: &BufferState,
        layout_first: bool,
    ) -> bool {
        buffer.id matches Option::Some(id) ==> {
            let root2 = self.split_root(region_id, split_mode, scale, layout_first);
            let leaves2 = root2.spec_leaf_ids();
            &&& self.spec_root().holds_region(region_id)
            &&& self.spec_root().split_at_computes(region_id, self.spec_next_id(), split_mode, scale, layout_first)
            &&& (self.spec_controllers().contains_key(id) ==> if self.controller_of(id).spec_region() == region_id {
                let target = self.moved_to(layout_first);
                let info = root2.spec_info(target).unwrap();
                &&& leaves2.contains(target)
                &&& buffer.line_number_width + 1 <= info.inner_width
                &&& (info.inner_width == buffer.line_number_width + 1 ==> window(
                    spec_lines(buffer.data@),
                    0,
                    info.inner_height as nat,
                ).len() == 0)
            } else {
                leaves2.contains(self.controller_of(id).spec_region())
            })
        }
    }

    /// Splits the region `region_id` in two (see `RootRegion::split_region_by_id`)
    /// and collects the leaves anew. When `buffer` was shown in that region it
    /// moves to the half named by `moved_to`, scrolled from the top so that its
    /// cursor comes into view, and that half is selected; else the region
    /// `buffer` is shown in is selected. Gives the id of the other half.
    pub fn split_region(
        &mut self,
        region_id: u16,
        split_mode: SplitMode,
        scale: usize,
        buffer: &BufferState,
        layout_first: bool,
    ) -> (r: Result<Option<u16>, MonitorError>)
        requires
            old(self).split_region_fits(region_id, split_mode, scale, buffer, layout_first),
        ensures
            final(self).spec_caches() == old(self).spec_caches(),
            match buffer.id {
                Option::None => {
                    &&& r == Result::<Option<u16>, MonitorError>::Err(MonitorError::BufferWithoutId)
                    &&& final(self).spec_root() == old(self).spec_root()
                    &&& final(self).spec_next_id() == old(self).spec_next_id()
                    &&& final(self).spec_controllers() == old(self).spec_controllers()
                    &&& final(self).spec_selected() == old(self).spec_selected()
                    &&& final(self).spec_leaves() == old(self).spec_leaves()
                },
                Option::Some(id) => {
                    let root2 = old(self).split_root(region_id, split_mode, scale, layout_first);
                    let other = if layout_first { old(self).spec_next_id() } else { following_id(old(self).spec_next_id()) };
                    &&& final(self).spec_root() == root2
                    &&& final(self).spec_next_id() == following_id(following_id(old(self).spec_next_id()))
                    &&& final(self).spec_leaves() == root2.spec_leaf_ids()
                    &&& if !old(self).spec_controllers().contains_key(id) {
                        &&& r == Result::<Option<u16>, MonitorError>::Err(MonitorError::MissingBuffer)
                        &&& final(self).spec_controllers() == old(self).spec_controllers()
                        &&& final(self).spec_selected() == old(self).spec_selected()
                    } else if old(self).controller_of(id).spec_region() == region_id {
                        let target = old(self).moved_to(layout_first);
                        let info = root2.spec_info(target).unwrap();
                        &&& r == Result::<Option<u16>, MonitorError>::Ok(Option::Some(other))
                        &&& final(self).spec_controllers() == old(self).spec_controllers().insert(
                            id,
                            RegionController::at(
                                target,
                                offset_into_monitor(
                                    0,
                                    info.inner_height as nat,
                                    info.inner_width as nat,
                                    buffer.cursor.line as nat,
                                    buffer.data@,
                                    buffer.line_number_width as nat,
                                ) as usize,
                            ),
                        )
                        &&& is_first_index(final(self).spec_leaves(), final(self).spec_selected() as int, target)
                    } else {
                        &&& r == Result::<Option<u16>, MonitorError>::Ok(Option::Some(other))
                        &&& final(self).spec_controllers() == old(self).spec_controllers()
                        &&& is_first_index(
                            final(self).spec_leaves(),
                            final(self).spec_selected() as int,
                            old(self).controller_of(id).spec_region(),
                        )
                    }
                },
            },
    {
        let buffer_id = match buffer.id {
            Option::Some(id) => id,
            Option::None => return Result::Err(MonitorError::BufferWithoutId),
        };
        let (first, second) = self.root_region.split_region_by_id(
            region_id,
            &mut self.allocator,
            split_mode,
            scale,
            layout_first,
        );
        self.leaf_regions.clear();
        self.root_region.fill_leaf_regions(&mut self.leaf_regions);
        proof {
            assert(self.leaf_regions@ =~= self.root_region.spec_leaf_ids());
        }
        let buffer_region = match self.region_controllers.get(&buffer_id) {
            Option::Some(controller) => controller.region(),
            Option::None => return Result::Err(MonitorError::MissingBuffer),
        };
        if buffer_region == region_id {
            self.region_controllers.remove(&buffer_id);
            let mut region_controller = if layout_first {
                RegionController::new(second, 0)
            } else {
                RegionController::new(first, 0)
            };
            proof {
                lemma_root_leaves_are_held(self.root_region, region_controller.spec_region());
                lemma_info_has_id(self.root_region, region_controller.spec_region());
            }
            let info = self.root_region.region_info(region_controller.region()).unwrap();
            region_controller.scroll_into_monitor(
                info.inner_height,
                info.inner_width,
                buffer.cursor.line,
                buffer.data.as_str(),
                buffer.line_number_width,
            );
            proof {
                RegionController::lemma_at(region_controller);
            }
            let selected_region = region_controller.region();
            self.region_controllers.insert(buffer_id, region_controller);
            proof {
                assert(self.region_controllers@ =~= old(self).spec_controllers().insert(buffer_id, region_controller));
            }
            self.update_selected_region_index(selected_region);
        } else {
            self.update_selected_region_index(buffer_region);
        }
        if layout_first {
            Result::Ok(Option::Some(first))
        } else {
            Result::Ok(Option::Some(second))
        }
    }

    /// Splits the root region; see `split_region`.
    pub fn split_root_region(
        &mut self,
        split_mode: SplitMode,
        scale: usize,
        buffer: &BufferState,
        layout_first: bool,
    ) -> (r: Result<Option<u16>, MonitorError>)
        requires
            old(self).split_region_fits(old(self).spec_root().spec_id(), split_mode, scale, buffer, layout_first),
        ensures
            final(self).spec_caches() == old(self).spec_caches(),
            match buffer.id {
                Option::None => {
                    &&& r == Result::<Option<u16>, MonitorError>::Err(MonitorError::BufferWithoutId)
                    &&& final(self).spec_root() == old(self).spec_root()
                    &&& final(self).spec_next_id() == old(self).spec_next_id()
                    &&& final(self).spec_controllers() == old(self).spec_controllers()
                    &&& final(self).spec_selected() == old(self).spec_selected()
                    &&& final(self).spec_leaves() == old(self).spec_leaves()
                },
                Option::Some(id) => {
                    let region_id = old(self).spec_root().spec_id();
                    let root2 = old(self).split_root(region_id, split_mode, scale, layout_first);
                    let other = if layout_first { old(self).spec_next_id() } else { following_id(old(self).spec_next_id()) };
                    &&& final(self).spec_root() == root2
                    &&& final(self).spec_next_id() == following_id(following_id(old(self).spec_next_id()))
                    &&& final(self).spec_leaves() == root2.spec_leaf_ids()
                    &&& if !old(self).spec_controllers().contains_key(id) {
                        &&& r == Result::<Option<u16>, MonitorError>::Err(MonitorError::MissingBuffer)
                        &&& final(self).spec_controllers() == old(self).spec_controllers()
                        &&& final(self).spec_selected() == old(self).spec_selected()
                    } else if old(self).controller_of(id).spec_region() == region_id {
                        let target = old(self).moved_to(layout_first);
                        let info = root2.spec_info(target).unwrap();
                        &&& r == Result::<Option<u16>, MonitorError>::Ok(Option::Some(other))
                        &&& final(self).spec_controllers() == old(self).spec_controllers().insert(
                            id,
                            RegionController::at(
                                target,
                                offset_into_monitor(
                                    0,
                                    info.inner_height as nat,
                                    info.inner_width as nat,
                                    buffer.cursor.line as nat,
                                    buffer.data@,
                                    buffer.line_number_width as nat,
                                ) as usize,
                            ),
                        )
                        &&& is_first_index(final(self).spec_leaves(), final(self).spec_selected() as int, target)
                    } else {
                        &&& r == Result::<Option<u16>, MonitorError>::Ok(Option::Some(other))
                        &&& final(self).spec_controllers() == old(self).spec_controllers()
                        &&& is_first_index(
                            final(self).spec_leaves(),
                            final(self).spec_selected() as int,
                            old(self).controller_of(id).spec_region(),
                        )
                    }
                },
            },
    {
        let root_id = self.root_region.id();
        self.split_region(root_id, split_mode, scale, buffer, layout_first)
    }
}


/// The controllers after a merge that `record` describes: when the father
/// became a leaf, one controller of the kept half and then one of the
/// dropped half (see `replaced_once`) are bound to the father.
pub open spec fn merged_controllers(
    before: Map<usize, RegionController>,
    after: Map<usize, RegionController>,
    record: MergeRecord,
) -> bool {
    if record.became_leaf {
        exists|mid: Map<usize, RegionController>|
            replaced_once(before, mid, record.second, record.father) && replaced_once(
                mid,
                after,
                record.first,
                record.father,
            )
    } else {
        after == before
    }
}

impl Monitor {
    /// Merges the leaf `drop` away inside the region `region_id` (see
    /// `RootRegion::merge_region_by_id`); the controllers of the merged
    /// regions follow (see `merged_controllers`) and the leaves are collected
    /// anew. Tells whether anything was merged.
    pub fn merge(&mut self, region_id: u16, drop: u16) -> (r: bool)
        requires
            old(self).spec_root().holds_region(region_id),
            old(self).spec_root().merge_at_fits(region_id, drop),
        ensures
            final(self).spec_caches() == old(self).spec_caches(),
            ({
                let (root2, record) = old(self).spec_root().merged_at(region_id, drop);
                &&& final(self).spec_root() == root2
                &&& r == record is Some
                &&& final(self).spec_next_id() == old(self).spec_next_id()
                &&& final(self).spec_selected() == old(self).spec_selected()
                &&& match record {
                    Option::Some(rec) => {
                        &&& final(self).spec_leaves() == root2.spec_leaf_ids()
                        &&& merged_controllers(old(self).spec_controllers(), final(self).spec_controllers(), rec)
                    },
                    Option::None => {
                        &&& final(self).spec_leaves() == old(self).spec_leaves()
                        &&& final(self).spec_controllers() == old(self).spec_controllers()
                    },
                }
            }),
    {
        let record = self.root_region.merge_region_by_id(region_id, drop);
        match record {
            Option::Some(rec) => {
                if rec.became_leaf {
                    let ghost before = self.region_controllers@;
                    self.replace_region(rec.second, rec.father);
                    let ghost mid = self.region_controllers@;
                    self.replace_region(rec.first, rec.father);
                    proof {
                        assert(replaced_once(before, mid, rec.second, rec.father));
                    }
                }
                self.leaf_regions.clear();
                self.root_region.fill_leaf_regions(&mut self.leaf_regions);
                proof {
                    assert(self.leaf_regions@ =~= self.root_region.spec_leaf_ids());
                }
                true
            },
            Option::None => false,
        }
    }

    /// Whether `merge(region_id, drop)` can be carried out: the region is in
    /// the tree and the merge inside it computes.
    pub fn can_merge(&self, region_id: u16, drop: u16) -> (r: bool)
        ensures
            r == (self.spec_root().holds_region(region_id) && self.spec_root().merge_at_fits(region_id, drop)),
    {
        self.root_region.region_info(region_id).is_some() && self.root_region.can_merge_at(region_id, drop)
    }

    /// `merge` inside the region `region_id` when it is in the tree; when it
    /// is not, nothing is merged.
    pub fn merge_region(&mut self, region_id: u16, drop: u16) -> (r: bool)
        requires
            old(self).spec_root().holds_region(region_id) ==> old(self).spec_root().merge_at_fits(region_id, drop),
            !old(self).spec_root().holds_region(region_id) ==> {
                &&& forall|k: usize| #[trigger] old(self).spec_controllers().contains_key(k)
                    ==> old(self).spec_controllers()[k].spec_region() != drop
                &&& !old(self).spec_root().holds_region(drop)
                &&& !old(self).spec_leaves().contains(drop)
            },
        ensures
            final(self).spec_caches() == old(self).spec_caches(),
            !old(self).spec_root().holds_region(region_id) ==> {
                &&& !r
                &&& final(self).spec_root() == old(self).spec_root()
                &&& final(self).spec_next_id() == old(self).spec_next_id()
                &&& final(self).spec_selected() == old(self).spec_selected()
                &&& final(self).spec_leaves() == old(self).spec_leaves()
                &&& final(self).spec_controllers() == old(self).spec_controllers()
            },
            old(self).spec_root().holds_region(region_id) ==> ({
                let (root2, record) = old(self).spec_root().merged_at(region_id, drop);
                &&& final(self).spec_root() == root2
                &&& r == record is Some
                &&& final(self).spec_next_id() == old(self).spec_next_id()
                &&& final(self).spec_selected() == old(self).spec_selected()
                &&& match record {
                    Option::Some(rec) => {
                        &&& final(self).spec_leaves() == root2.spec_leaf_ids()
                        &&& merged_controllers(old(self).spec_controllers(), final(self).spec_controllers(), rec)
                    },
                    Option::None => {
                        &&& final(self).spec_leaves() == old(self).spec_leaves()
                        &&& final(self).spec_controllers() == old(self).spec_controllers()
                    },
                }
            }),
    {
        if self.root_region.region_info(region_id).is_some() {
            return self.merge(region_id, drop);
        }
        false
    }
}


impl Monitor {
    /// Index, among the leaves, of the selected region.
    pub fn selected_region_index(&self) -> (r: usize)
        ensures
            r == self.spec_selected(),
    {
        self.selected_region_index
    }

    /// The ids of the leaf regions, as last collected.
    pub fn leaf_regions(&self) -> (r: &Vec<u16>)
        ensures
            r@ == self.spec_leaves(),
    {
        &self.leaf_regions
    }
}

} // verus!
