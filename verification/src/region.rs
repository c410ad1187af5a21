use vstd::prelude::*;
use crate::geometry::{Position, Rectangle};

verus! {

/// Smallest share, in percent, that zooming leaves to either half of a split.
pub const MIN_SCALE: usize = 10;

/// Direction in which a region is cut in two.
#[derive(Debug, Clone, Copy, PartialEq, Eq, Structural)]
pub enum SplitMode {
    /// One half above the other.
    Vertical,
    /// One half beside the other.
    Horizon,
}

/// How a region that has children shares its area between them: the share of
/// the first child, in percent.
#[derive(Debug, Clone, Copy, PartialEq, Eq, Structural)]
pub enum SplitData {
    NotSplit,
    Vertical(usize),
    Horizon(usize),
}

impl SplitData {
    /// The state after `zoom_down(step)`.
    pub open spec fn spec_zoom_down(self, step: usize) -> SplitData {
        match self {
            SplitData::NotSplit => SplitData::NotSplit,
            SplitData::Vertical(s) => SplitData::Vertical(
                if s - step < MIN_SCALE { MIN_SCALE } else { (s - step) as usize },
            ),
            SplitData::Horizon(s) => SplitData::Horizon(
                if s - step < MIN_SCALE { MIN_SCALE } else { (s - step) as usize },
            ),
        }
    }

    /// The state after `zoom_up(step)`.
    pub open spec fn spec_zoom_up(self, step: usize) -> SplitData {
        match self {
            SplitData::NotSplit => SplitData::NotSplit,
            SplitData::Vertical(s) => SplitData::Vertical(
                if s + step > 100 - MIN_SCALE { (100 - MIN_SCALE) as usize } else { (s + step) as usize },
            ),
            SplitData::Horizon(s) => SplitData::Horizon(
                if s + step > 100 - MIN_SCALE { (100 - MIN_SCALE) as usize } else { (s + step) as usize },
            ),
        }
    }

    /// The share held, or none for an unsplit region.
    pub open spec fn scale(self) -> Option<usize> {
        match self {
            SplitData::NotSplit => Option::None,
            SplitData::Vertical(s) => Option::Some(s),
            SplitData::Horizon(s) => Option::Some(s),
        }
    }

    /// Shrinks the first child's share by `step`, to no less than `MIN_SCALE`.
    pub fn zoom_down(&mut self, step: usize)
        requires
            old(self).scale() matches Option::Some(s) ==> s >= step,
        ensures
            *final(self) == old(self).spec_zoom_down(step),
    {
        match *self {
            SplitData::NotSplit => {},
            SplitData::Vertical(scale) => {
                let s = scale - step;
                *self = SplitData::Vertical(if MIN_SCALE > s { MIN_SCALE } else { s });
            },
            SplitData::Horizon(scale) => {
                let s = scale - step;
                *self = SplitData::Horizon(if MIN_SCALE > s { MIN_SCALE } else { s });
            },
        }
    }

    /// Grows the first child's share by `step`, to no more than `100 - MIN_SCALE`.
    pub fn zoom_up(&mut self, step: usize)
        requires
            old(self).scale() matches Option::Some(s) ==> s + step <= usize::MAX,
        ensures
            *final(self) == old(self).spec_zoom_up(step),
    {
        match *self {
            SplitData::NotSplit => {},
            SplitData::Vertical(scale) => {
                let s = scale + step;
                *self = SplitData::Vertical(if 100 - MIN_SCALE < s { 100 - MIN_SCALE } else { s });
            },
            SplitData::Horizon(scale) => {
                let s = scale + step;
                *self = SplitData::Horizon(if 100 - MIN_SCALE < s { 100 - MIN_SCALE } else { s });
            },
        }
    }
}


/// Within the zoom range, a share stays within it after any zoom step.
pub proof fn lemma_zoom_stays_in_range(sd: SplitData, step: usize)
    requires
        sd.scale() matches Option::Some(s) ==> MIN_SCALE <= s <= 100 - MIN_SCALE,
    ensures
        sd.spec_zoom_up(step).scale() matches Option::Some(s) ==> MIN_SCALE <= s <= 100 - MIN_SCALE,
        sd.scale() matches Option::Some(s) && s >= step ==> (sd.spec_zoom_down(step).scale() matches Option::Some(t)
            && MIN_SCALE <= t <= 100 - MIN_SCALE),
{
}

/// Both shares split the same way, or neither splits.
pub open spec fn same_direction(a: SplitData, b: SplitData) -> bool {
    match (a, b) {
        (SplitData::NotSplit, SplitData::NotSplit) => true,
        (SplitData::Vertical(_), SplitData::Vertical(_)) => true,
        (SplitData::Horizon(_), SplitData::Horizon(_)) => true,
        _ => false,
    }
}

/// Zooming never changes the direction of a split, nor splits a whole region.
pub proof fn lemma_zoom_keeps_mode(sd: SplitData, step: usize)
    ensures
        same_direction(sd, sd.spec_zoom_up(step)),
        same_direction(sd, sd.spec_zoom_down(step)),
{
}

/// A zoom up followed by a zoom down of the same step restores the share,
/// when the zoom up was not held back by the upper bound.
pub proof fn lemma_zoom_up_then_down(sd: SplitData, step: usize)
    requires
        sd.scale() matches Option::Some(s) ==> MIN_SCALE <= s && s + step <= 100 - MIN_SCALE,
    ensures
        sd.spec_zoom_up(step).spec_zoom_down(step) == sd,
{
}

/// A zoom down followed by a zoom up of the same step restores the share,
/// when the zoom down was not held back by the lower bound.
pub proof fn lemma_zoom_down_then_up(sd: SplitData, step: usize)
    requires
        sd.scale() matches Option::Some(s) ==> s >= step && s - step >= MIN_SCALE && s <= 100 - MIN_SCALE,
    ensures
        sd.spec_zoom_down(step).spec_zoom_up(step) == sd,
{
}


/// Hands out region ids in sequence, wrapping around after `u16::MAX`.
pub struct RegionIdAllocator {
    next: u16,
}

impl RegionIdAllocator {
    /// The id that the next allocation hands out.
    pub closed spec fn next_id(&self) -> u16 {
        self.next
    }

    pub fn new() -> (a: RegionIdAllocator)
        ensures
            a.next_id() == 0,
    {
        RegionIdAllocator { next: 0 }
    }
}

/// The id handed out after `id`.
pub open spec fn following_id(id: u16) -> u16 {
    if id == u16::MAX { 0 } else { (id + 1) as u16 }
}

/// Takes the next region id.
pub fn alloc_region_id(allocator: &mut RegionIdAllocator) -> (id: u16)
    ensures
        id == old(allocator).next_id(),
        final(allocator).next_id() == following_id(id),
{
    let id = allocator.next;
    allocator.next = allocator.next.wrapping_add(1);
    id
}

/// A region below the root: a rectangle of its own, the id of the region it
/// was split from, and either no children or the two halves it is split into.
#[derive(Debug)]
pub struct StaticRegion {
    id: u16,
    father: u16,
    position: Position,
    width: usize,
    height: usize,
    split_data: SplitData,
    /// Width and height of the render cache the region keeps for its area.
    cache_size: (usize, usize),
    children: Option<(Box<StaticRegion>, Box<StaticRegion>)>,
    render_line_count: bool,
}

/// Where the first child of a region of area `(pos, w, h)` split by `sd` is
/// laid out; `own` is the child's present position, which a vertical layout keeps.
pub open spec fn first_child_rect(sd: SplitData, pos: Position, w: usize, h: usize, own: Position) -> Rectangle {
    match sd {
        SplitData::Horizon(s) => Rectangle { position: pos, width: (w * s / 100) as usize, height: h },
        SplitData::Vertical(s) => Rectangle { position: own, width: w, height: (h * s / 100) as usize },
        SplitData::NotSplit => Rectangle { position: own, width: w, height: h },
    }
}

/// Where the second child of a region of area `(pos, w, h)` split by `sd` is
/// laid out. The two children share one border line (or column).
pub open spec fn second_child_rect(sd: SplitData, pos: Position, w: usize, h: usize) -> Rectangle {
    match sd {
        SplitData::Horizon(s) => {
            let left = w * s / 100;
            Rectangle {
                position: Position { line: pos.line, offset: (pos.offset + left - 1) as usize },
                width: (w - left + 1) as usize,
                height: h,
            }
        },
        SplitData::Vertical(s) => {
            let up = h * s / 100;
            Rectangle {
                position: Position { line: (pos.line + up - 1) as usize, offset: pos.offset },
                width: w,
                height: (h - up + 1) as usize,
            }
        },
        SplitData::NotSplit => Rectangle { position: pos, width: w, height: h },
    }
}

/// The layout of `sd` over `(pos, w, h)` can be computed without overflow.
pub open spec fn split_fits(sd: SplitData, pos: Position, w: usize, h: usize) -> bool {
    match sd {
        SplitData::NotSplit => true,
        SplitData::Vertical(s) => {
            &&& h * s <= usize::MAX
            &&& h * s / 100 <= h
            &&& h - h * s / 100 + 1 <= usize::MAX
            &&& 1 <= pos.line + h * s / 100 <= usize::MAX
        },
        SplitData::Horizon(s) => {
            &&& w * s <= usize::MAX
            &&& w * s / 100 <= w
            &&& w - w * s / 100 + 1 <= usize::MAX
            &&& 1 <= pos.offset + w * s / 100 <= usize::MAX
        },
    }
}

impl StaticRegion {
    pub closed spec fn spec_id(self) -> u16 { self.id }
    pub closed spec fn spec_father(self) -> u16 { self.father }
    pub closed spec fn spec_split(self) -> SplitData { self.split_data }
    pub closed spec fn spec_cache_size(self) -> (usize, usize) { self.cache_size }
    pub closed spec fn spec_line_count(self) -> bool { self.render_line_count }
    pub closed spec fn spec_children(self) -> Option<(Box<StaticRegion>, Box<StaticRegion>)> { self.children }
    /// The region's area, borders included.
    pub closed spec fn spec_rect(self) -> Rectangle {
        Rectangle { position: self.position, width: self.width, height: self.height }
    }

    /// A fresh region with the given id, father and area.
    pub closed spec fn fresh(id: u16, father: u16, r: Rectangle) -> StaticRegion {
        StaticRegion {
            id,
            father,
            position: r.position,
            width: r.width,
            height: r.height,
            split_data: SplitData::NotSplit,
            cache_size: (r.width, r.height),
            children: Option::None,
            render_line_count: true,
        }
    }

    pub fn new(
        allocator: &mut RegionIdAllocator,
        father_id: u16,
        position: Position,
        width: usize,
        height: usize,
    ) -> (r: StaticRegion)
        ensures
            r == StaticRegion::fresh(
                old(allocator).next_id(),
                father_id,
                Rectangle { position, width, height },
            ),
            final(allocator).next_id() == following_id(old(allocator).next_id()),
    {
        StaticRegion {
            id: alloc_region_id(allocator),
            father: father_id,
            position,
            width,
            height,
            children: Option::None,
            split_data: SplitData::NotSplit,
            cache_size: (width, height),
            render_line_count: true,
        }
    }

    /// The region laid out anew over area `r`: its render cache takes the
    /// size of `r`, and its children (if split) are laid out over `r` in turn.
    pub closed spec fn resized_at(self, r: Rectangle) -> StaticRegion
        decreases self,
    {
        StaticRegion {
            id: self.id,
            father: self.father,
            position: r.position,
            width: r.width,
            height: r.height,
            split_data: self.split_data,
            cache_size: (r.width, r.height),
            children: children_resized(self.children, self.split_data, r),
            render_line_count: self.render_line_count,
        }
    }

    /// Laying the region out anew over area `r` computes without overflow.
    pub closed spec fn resize_fits_at(self, r: Rectangle) -> bool
        decreases self,
    {
        children_resize_fit(self.children, self.split_data, r)
    }

    pub closed spec fn with_line_count(self, render: bool) -> StaticRegion {
        StaticRegion { render_line_count: render, ..self }
    }

    pub closed spec fn with_split_data(self, split_data: SplitData) -> StaticRegion {
        StaticRegion { split_data, ..self }
    }

    pub closed spec fn with_father(self, father: u16) -> StaticRegion {
        StaticRegion { father, ..self }
    }

    pub closed spec fn with_rect(self, r: Rectangle) -> StaticRegion {
        StaticRegion { position: r.position, width: r.width, height: r.height, ..self }
    }

    pub closed spec fn with_children(self, children: Option<(Box<StaticRegion>, Box<StaticRegion>)>) -> StaticRegion {
        StaticRegion { children, ..self }
    }

    /// The region with its render cache sized to its area.
    pub closed spec fn cache_refreshed(self) -> StaticRegion {
        StaticRegion { cache_size: (self.width, self.height), ..self }
    }

    /// The region after `handle_resize`.
    pub open spec fn resized(self) -> StaticRegion {
        self.resized_at(self.spec_rect())
    }

    /// `handle_resize` on the region computes without overflow.
    pub open spec fn resize_fits(self) -> bool {
        self.resize_fits_at(self.spec_rect())
    }
}

/// The children of a region of area `r` split by `sd`, laid out anew.
pub closed spec fn children_resized(
    children: Option<(Box<StaticRegion>, Box<StaticRegion>)>,
    sd: SplitData,
    r: Rectangle,
) -> Option<(Box<StaticRegion>, Box<StaticRegion>)>
    decreases children,
{
    match children {
        Option::Some((a, b)) => match sd {
            SplitData::NotSplit => Option::Some((a, b)),
            _ => Option::Some(
                (
                    Box::new((*a).resized_at(first_child_rect(sd, r.position, r.width, r.height, a.position))),
                    Box::new((*b).resized_at(second_child_rect(sd, r.position, r.width, r.height))),
                ),
            ),
        },
        Option::None => Option::None,
    }
}

/// Laying out the children of a region of area `r` split by `sd` computes
/// without overflow, down the whole subtree.
pub closed spec fn children_resize_fit(
    children: Option<(Box<StaticRegion>, Box<StaticRegion>)>,
    sd: SplitData,
    r: Rectangle,
) -> bool
    decreases children,
{
    match children {
        Option::Some((a, b)) => match sd {
            SplitData::NotSplit => true,
            _ => {
                &&& split_fits(sd, r.position, r.width, r.height)
                &&& (*a).resize_fits_at(first_child_rect(sd, r.position, r.width, r.height, a.position))
                &&& (*b).resize_fits_at(second_child_rect(sd, r.position, r.width, r.height))
            },
        },
        Option::None => true,
    }
}


/// Lays the children of a region of area `(pos, w, h)` split by `sd` out anew,
/// each over its share, and each of their subtrees in turn.
fn resize_children(
    children: Option<(Box<StaticRegion>, Box<StaticRegion>)>,
    sd: SplitData,
    pos: Position,
    w: usize,
    h: usize,
) -> (r: Option<(Box<StaticRegion>, Box<StaticRegion>)>)
    requires
        children_resize_fit(children, sd, Rectangle { position: pos, width: w, height: h }),
    ensures
        r == children_resized(children, sd, Rectangle { position: pos, width: w, height: h }),
    decreases children, 0int,
{
    match children {
        Option::None => Option::None,
        Option::Some((a, b)) => {
            proof {
                assert(decreases_to!(children => a));
                assert(decreases_to!(children => b));
            }
            let mut up: StaticRegion = *a;
            let mut down: StaticRegion = *b;
            match sd {
                SplitData::NotSplit => {
                    return Option::Some((Box::new(up), Box::new(down)));
                },
                SplitData::Vertical(scale_percent) => {
                    let up_size = h * scale_percent / 100;
                    let down_size = h - up_size + 1;
                    up.height = up_size;
                    up.width = w;
                    down.height = down_size;
                    down.width = w;
                    down.position = Position { line: pos.line + up_size - 1, offset: pos.offset };
                },
                SplitData::Horizon(scale_percent) => {
                    let left_size = w * scale_percent / 100;
                    let right_size = w - left_size + 1;
                    up.height = h;
                    up.width = left_size;
                    up.position = pos;
                    down.height = h;
                    down.width = right_size;
                    down.position = Position { line: pos.line, offset: pos.offset + left_size - 1 };
                },
            }
            up.handle_resize();
            down.handle_resize();
            Option::Some((Box::new(up), Box::new(down)))
        },
    }
}

/// Whether the layout of `sd` over `(pos, w, h)` can be computed; see `split_fits`.
pub fn split_fits_exec(sd: SplitData, pos: Position, w: usize, h: usize) -> (r: bool)
    ensures
        r == split_fits(sd, pos, w, h),
{
    match sd {
        SplitData::NotSplit => true,
        SplitData::Vertical(s) => match h.checked_mul(s) {
            Option::Some(hs) => {
                let up = hs / 100;
                up <= h && h - up < usize::MAX && match pos.line.checked_add(up) {
                    Option::Some(t) => t >= 1,
                    Option::None => false,
                }
            },
            Option::None => false,
        },
        SplitData::Horizon(s) => match w.checked_mul(s) {
            Option::Some(ws) => {
                let left = ws / 100;
                left <= w && w - left < usize::MAX && match pos.offset.checked_add(left) {
                    Option::Some(t) => t >= 1,
                    Option::None => false,
                }
            },
            Option::None => false,
        },
    }
}

/// Whether laying out `children` over `r` by `sd` can be computed, down the
/// whole subtree; see `children_resize_fit`.
fn children_fit(children: &Option<(Box<StaticRegion>, Box<StaticRegion>)>, sd: SplitData, r: Rectangle) -> (ok: bool)
    ensures
        ok == children_resize_fit(*children, sd, r),
    decreases *children,
{
    match children {
        Option::None => true,
        Option::Some((a, b)) => {
            proof {
                assert(decreases_to!(*children => **a));
                assert(decreases_to!(*children => **b));
            }
            match sd {
                SplitData::NotSplit => true,
                _ => {
                    if !split_fits_exec(sd, r.position, r.width, r.height) {
                        return false;
                    }
                    let (ra, rb) = match sd {
                        SplitData::Vertical(s) => {
                            let up = r.height * s / 100;
                            (
                                Rectangle { position: a.position, width: r.width, height: up },
                                Rectangle {
                                    position: Position { line: r.position.line + up - 1, offset: r.position.offset },
                                    width: r.width,
                                    height: r.height - up + 1,
                                },
                            )
                        },
                        SplitData::Horizon(s) => {
                            let left = r.width * s / 100;
                            (
                                Rectangle { position: r.position, width: left, height: r.height },
                                Rectangle {
                                    position: Position { line: r.position.line, offset: r.position.offset + left - 1 },
                                    width: r.width - left + 1,
                                    height: r.height,
                                },
                            )
                        },
                        SplitData::NotSplit => (r, r),
                    };
                    proof {
                        assert(ra == first_child_rect(sd, r.position, r.width, r.height, a.position));
                        assert(rb == second_child_rect(sd, r.position, r.width, r.height));
                    }
                    children_fit(&a.children, a.split_data, ra) && children_fit(&b.children, b.split_data, rb)
                },
            }
        },
    }
}

impl StaticRegion {
    /// Gives the render cache the size of the region's area.
    pub fn update_render_buffer(&mut self)
        ensures
            *final(self) == old(self).cache_refreshed(),
    {
        self.cache_size = (self.width, self.height);
    }

    /// Lays the region out anew over its own area: its render cache, then its
    /// children over their shares, down the whole subtree.
    pub fn handle_resize(&mut self)
        requires
            old(self).resize_fits(),
        ensures
            *final(self) == old(self).resized(),
        decreases old(self).spec_children(), 1int,
    {
        self.update_render_buffer();
        let children = self.children.take();
        self.children = resize_children(children, self.split_data, self.position, self.width, self.height);
    }
}


/// The accessors that every region offers.
pub trait Region {
    spec fn spec_region_id(&self) -> u16;

    spec fn spec_father_id(&self) -> Option<u16>;

    /// Whether the position (with or without its border) can be computed without overflow.
    spec fn position_defined(&self, edge: bool) -> bool;

    spec fn spec_position(&self, edge: bool) -> Position;

    spec fn spec_width(&self, edge: bool) -> usize;

    spec fn spec_height(&self, edge: bool) -> usize;

    spec fn spec_split_data(&self) -> SplitData;

    spec fn spec_render_line_count(&self) -> bool;

    fn id(&self) -> (r: u16)
        ensures
            r == self.spec_region_id(),
    ;

    fn father_id(&self) -> (r: Option<u16>)
        ensures
            r == self.spec_father_id(),
    ;

    /// Top-left corner, of the whole area when `edge` holds, else of the area inside the border.
    fn position(&self, edge: bool) -> (r: Position)
        requires
            self.position_defined(edge),
        ensures
            r == self.spec_position(edge),
    ;

    fn width(&self, edge: bool) -> (r: usize)
        ensures
            r == self.spec_width(edge),
    ;

    fn height(&self, edge: bool) -> (r: usize)
        ensures
            r == self.spec_height(edge),
    ;

    fn render_line_count(&self) -> (r: bool)
        ensures
            r == self.spec_render_line_count(),
    ;

    fn set_render_line_count_enabled(&mut self, render: bool)
        ensures
            final(self).spec_render_line_count() == render,
    ;

    fn split_data(&self) -> (r: SplitData)
        ensures
            r == self.spec_split_data(),
    ;

    fn set_split_data(&mut self, split_data: SplitData)
        ensures
            final(self).spec_split_data() == split_data,
    ;

    /// Records `id` as the region's father; the root has none and keeps none.
    fn set_father(&mut self, id: u16)
        ensures
            final(self).spec_father_id() == (if old(self).spec_father_id() is Some {
                Option::Some(id)
            } else {
                Option::None
            }),
    ;

    fn rectangle(&self, edge: bool) -> (r: Rectangle)
        requires
            self.position_defined(edge),
        ensures
            r == (Rectangle {
                position: self.spec_position(edge),
                width: self.spec_width(edge),
                height: self.spec_height(edge),
            }),
    {
        Rectangle { position: self.position(edge), width: self.width(edge), height: self.height(edge) }
    }
}

impl Region for StaticRegion {
    closed spec fn spec_region_id(&self) -> u16 { self.id }

    closed spec fn spec_father_id(&self) -> Option<u16> { Option::Some(self.father) }

    closed spec fn position_defined(&self, edge: bool) -> bool {
        edge || (self.position.line < usize::MAX && self.position.offset < usize::MAX)
    }

    closed spec fn spec_position(&self, edge: bool) -> Position {
        if edge {
            self.position
        } else {
            Position { line: (self.position.line + 1) as usize, offset: (self.position.offset + 1) as usize }
        }
    }

    closed spec fn spec_width(&self, edge: bool) -> usize {
        if edge { self.width } else if self.width >= 2 { (self.width - 2) as usize } else { 0 }
    }

    closed spec fn spec_height(&self, edge: bool) -> usize {
        if edge { self.height } else if self.height >= 2 { (self.height - 2) as usize } else { 0 }
    }

    closed spec fn spec_split_data(&self) -> SplitData { self.split_data }

    closed spec fn spec_render_line_count(&self) -> bool { self.render_line_count }

    fn id(&self) -> (r: u16)
        ensures
            r == self.spec_id(),
    {
        self.id
    }

    fn father_id(&self) -> (r: Option<u16>) {
        Option::Some(self.father)
    }

    fn position(&self, edge: bool) -> (r: Position) {
        if edge {
            self.position
        } else {
            self.position.plus(Position::new(1, 1))
        }
    }

    fn width(&self, edge: bool) -> (r: usize) {
        if edge {
            self.width
        } else {
            self.width.saturating_sub(2)
        }
    }

    fn height(&self, edge: bool) -> (r: usize) {
        if edge {
            self.height
        } else {
            self.height.saturating_sub(2)
        }
    }

    fn render_line_count(&self) -> (r: bool) {
        self.render_line_count
    }

    fn set_render_line_count_enabled(&mut self, render: bool)
        ensures
            *final(self) == old(self).with_line_count(render),
    {
        self.render_line_count = render;
    }

    fn split_data(&self) -> (r: SplitData) {
        self.split_data
    }

    fn set_split_data(&mut self, split_data: SplitData)
        ensures
            *final(self) == old(self).with_split_data(split_data),
    {
        self.split_data = split_data;
    }

    fn set_father(&mut self, id: u16)
        ensures
            *final(self) == old(self).with_father(id),
    {
        self.father = id;
    }
}


/// The share that splitting by `mode` at `scale_percent` records.
pub open spec fn mode_split_data(mode: SplitMode, scale_percent: usize) -> SplitData {
    match mode {
        SplitMode::Vertical => SplitData::Vertical(scale_percent),
        SplitMode::Horizon => SplitData::Horizon(scale_percent),
    }
}

/// `target` after it takes over `children` (and the share `sd` they were laid
/// out by) from the region being split: they get `target` as their father and
/// are laid out over `target`'s area.
pub closed spec fn adopted(
    target: StaticRegion,
    children: Option<(Box<StaticRegion>, Box<StaticRegion>)>,
    sd: SplitData,
) -> StaticRegion {
    match children {
        Option::Some((c1, c2)) => target.with_split_data(sd).with_children(
            Option::Some(
                (Box::new((*c1).with_father(target.id)), Box::new((*c2).with_father(target.id))),
            ),
        ).resized(),
        Option::None => target,
    }
}

/// Laying out the children that `target` takes over computes without overflow.
pub closed spec fn adoption_fits(
    target: StaticRegion,
    children: Option<(Box<StaticRegion>, Box<StaticRegion>)>,
    sd: SplitData,
) -> bool {
    match children {
        Option::Some((c1, c2)) => target.with_split_data(sd).with_children(
            Option::Some(
                (Box::new((*c1).with_father(target.id)), Box::new((*c2).with_father(target.id))),
            ),
        ).resize_fits(),
        Option::None => true,
    }
}

/// The two halves made when the region `self_id` of area `(pos, w, h)`, with
/// `children` laid out by `sd`, is split by `mode` at `scale_percent`. They
/// take ids `id1` and the one after; the half named by `layout_first` (the
/// second when it holds, else the first) takes over the old children.
pub open spec fn split_halves(
    id1: u16,
    self_id: u16,
    pos: Position,
    w: usize,
    h: usize,
    children: Option<(Box<StaticRegion>, Box<StaticRegion>)>,
    sd: SplitData,
    mode: SplitMode,
    scale_percent: usize,
    layout_first: bool,
) -> (StaticRegion, StaticRegion) {
    let new_sd = mode_split_data(mode, scale_percent);
    let first = StaticRegion::fresh(id1, self_id, first_child_rect(new_sd, pos, w, h, pos));
    let second = StaticRegion::fresh(following_id(id1), self_id, second_child_rect(new_sd, pos, w, h));
    if layout_first {
        (first, adopted(second, children, sd))
    } else {
        (adopted(first, children, sd), second)
    }
}

/// Splitting can compute the halves without overflow.
pub open spec fn split_halves_fit(
    id1: u16,
    self_id: u16,
    pos: Position,
    w: usize,
    h: usize,
    children: Option<(Box<StaticRegion>, Box<StaticRegion>)>,
    sd: SplitData,
    mode: SplitMode,
    scale_percent: usize,
    layout_first: bool,
) -> bool {
    let new_sd = mode_split_data(mode, scale_percent);
    let first = StaticRegion::fresh(id1, self_id, first_child_rect(new_sd, pos, w, h, pos));
    let second = StaticRegion::fresh(following_id(id1), self_id, second_child_rect(new_sd, pos, w, h));
    &&& split_fits(new_sd, pos, w, h)
    &&& if layout_first {
        adoption_fits(second, children, sd)
    } else {
        adoption_fits(first, children, sd)
    }
}

/// Makes the two halves of a split; see `split_halves`.
fn split_into_halves(
    allocator: &mut RegionIdAllocator,
    self_id: u16,
    pos: Position,
    w: usize,
    h: usize,
    children: Option<(Box<StaticRegion>, Box<StaticRegion>)>,
    sd: SplitData,
    split_mode: SplitMode,
    scale_percent: usize,
    layout_first: bool,
) -> (r: (StaticRegion, StaticRegion))
    requires
        split_halves_fit(old(allocator).next_id(), self_id, pos, w, h, children, sd, split_mode, scale_percent, layout_first),
    ensures
        r == split_halves(old(allocator).next_id(), self_id, pos, w, h, children, sd, split_mode, scale_percent, layout_first),
        final(allocator).next_id() == following_id(following_id(old(allocator).next_id())),
{
    let (first, second) = match split_mode {
        SplitMode::Vertical => {
            let up_size = h * scale_percent / 100;
            let down_size = h - up_size;
            let up = StaticRegion::new(allocator, self_id, pos, w, up_size);
            let down = StaticRegion::new(
                allocator,
                self_id,
                Position { line: pos.line + up_size - 1, offset: pos.offset },
                w,
                down_size + 1,
            );
            (up, down)
        },
        SplitMode::Horizon => {
            let left_size = w * scale_percent / 100;
            let right_size = w - left_size + 1;
            let left = StaticRegion::new(allocator, self_id, pos, left_size, h);
            let right = StaticRegion::new(
                allocator,
                self_id,
                Position { line: pos.line, offset: pos.offset + left_size - 1 },
                right_size,
                h,
            );
            (left, right)
        },
    };
    match children {
        Option::None => (first, second),
        Option::Some((c1, c2)) => {
            let mut c1: StaticRegion = *c1;
            let mut c2: StaticRegion = *c2;
            if layout_first {
                let mut region = second;
                let id = region.id();
                c1.set_father(id);
                c2.set_father(id);
                region.set_split_data(sd);
                region.set_children(Option::Some((Box::new(c1), Box::new(c2))));
                (first, region)
            } else {
                let mut region = first;
                let id = region.id();
                c1.set_father(id);
                c2.set_father(id);
                region.set_split_data(sd);
                region.set_children(Option::Some((Box::new(c1), Box::new(c2))));
                (region, second)
            }
        },
    }
}

/// The area of the half that takes over the children of a region of area
/// `(pos, w, h)` split by `mode` at `scale_percent`: the second half when
/// `layout_first` holds, else the first.
pub open spec fn taker_rect(mode: SplitMode, scale_percent: usize, pos: Position, w: usize, h: usize, layout_first: bool) -> Rectangle {
    let new_sd = mode_split_data(mode, scale_percent);
    if layout_first {
        second_child_rect(new_sd, pos, w, h)
    } else {
        first_child_rect(new_sd, pos, w, h, pos)
    }
}

/// Laying out children that took a new father computes exactly when it did
/// under the old one.
proof fn lemma_refathered_fit(c1: StaticRegion, c2: StaticRegion, f: u16, sd: SplitData, r: Rectangle)
    ensures
        children_resize_fit(Option::Some((Box::new(c1.with_father(f)), Box::new(c2.with_father(f)))), sd, r)
            == children_resize_fit(Option::Some((Box::new(c1), Box::new(c2))), sd, r),
{
    assert(c1.with_father(f).resize_fits_at(first_child_rect(sd, r.position, r.width, r.height, c1.position))
        == c1.resize_fits_at(first_child_rect(sd, r.position, r.width, r.height, c1.position)));
    assert(c2.with_father(f).resize_fits_at(second_child_rect(sd, r.position, r.width, r.height))
        == c2.resize_fits_at(second_child_rect(sd, r.position, r.width, r.height)));
}

/// A split computes exactly when the new share fits the area and the
/// children taken over can be laid out over the half that takes them; the
/// layout of the two halves then computes too.
proof fn lemma_split_halves_fit(
    id1: u16,
    self_id: u16,
    pos: Position,
    w: usize,
    h: usize,
    children: Option<(Box<StaticRegion>, Box<StaticRegion>)>,
    sd: SplitData,
    mode: SplitMode,
    scale_percent: usize,
    layout_first: bool,
)
    ensures
        split_halves_fit(id1, self_id, pos, w, h, children, sd, mode, scale_percent, layout_first) == (
            split_fits(mode_split_data(mode, scale_percent), pos, w, h)
            && children_resize_fit(children, sd, taker_rect(mode, scale_percent, pos, w, h, layout_first))),
        split_halves_fit(id1, self_id, pos, w, h, children, sd, mode, scale_percent, layout_first) ==> ({
            let halves = split_halves(id1, self_id, pos, w, h, children, sd, mode, scale_percent, layout_first);
            children_resize_fit(
                Option::Some((Box::new(halves.0), Box::new(halves.1))),
                mode_split_data(mode, scale_percent),
                Rectangle { position: pos, width: w, height: h },
            )
        }),
{
    let new_sd = mode_split_data(mode, scale_percent);
    let first = StaticRegion::fresh(id1, self_id, first_child_rect(new_sd, pos, w, h, pos));
    let second = StaticRegion::fresh(following_id(id1), self_id, second_child_rect(new_sd, pos, w, h));
    let target = if layout_first { second } else { first };
    let tr = taker_rect(mode, scale_percent, pos, w, h, layout_first);
    assert(target.spec_rect() == tr);
    match children {
        Option::Some((c1, c2)) => {
            lemma_refathered_fit(*c1, *c2, target.id, sd, tr);
            let ch = Option::Some((Box::new((*c1).with_father(target.id)), Box::new((*c2).with_father(target.id))));
            let t2 = target.with_split_data(sd).with_children(ch);
            assert(adoption_fits(target, children, sd) == children_resize_fit(ch, sd, tr));
            lemma_children_reshared_fit(ch, sd, sd, tr);
            let adopted_t = adopted(target, children, sd);
            assert(adopted_t == t2.resized_at(tr));
            assert(adopted_t.spec_rect() == tr);
            assert(adopted_t.resize_fits_at(tr) == children_resize_fit(ch, sd, tr));
        },
        Option::None => {
            assert(adopted(target, children, sd) == target);
        },
    }
    let halves = split_halves(id1, self_id, pos, w, h, children, sd, mode, scale_percent, layout_first);
    assert(halves.0.spec_rect() == first_child_rect(new_sd, pos, w, h, pos));
    assert(first_child_rect(new_sd, pos, w, h, halves.0.position) == first_child_rect(new_sd, pos, w, h, pos));
    assert(halves.1.spec_rect() == second_child_rect(new_sd, pos, w, h));
    if split_halves_fit(id1, self_id, pos, w, h, children, sd, mode, scale_percent, layout_first) {
        assert(first.resize_fits_at(first_child_rect(new_sd, pos, w, h, pos)));
        assert(second.resize_fits_at(second_child_rect(new_sd, pos, w, h)));
        assert(adopted(target, children, sd).resize_fits_at(tr));
        assert(halves.0.resize_fits_at(first_child_rect(new_sd, pos, w, h, halves.0.position)));
        assert(halves.1.resize_fits_at(second_child_rect(new_sd, pos, w, h)));
    }
}

/// The area of the half that takes over the children; see `taker_rect`.
fn taker_rect_exec(mode: SplitMode, scale_percent: usize, pos: Position, w: usize, h: usize, layout_first: bool) -> (r: Rectangle)
    requires
        split_fits(mode_split_data(mode, scale_percent), pos, w, h),
    ensures
        r == taker_rect(mode, scale_percent, pos, w, h, layout_first),
{
    match mode {
        SplitMode::Vertical => {
            let up = h * scale_percent / 100;
            if layout_first {
                Rectangle { position: Position { line: pos.line + up - 1, offset: pos.offset }, width: w, height: h - up + 1 }
            } else {
                Rectangle { position: pos, width: w, height: up }
            }
        },
        SplitMode::Horizon => {
            let left = w * scale_percent / 100;
            if layout_first {
                Rectangle { position: Position { line: pos.line, offset: pos.offset + left - 1 }, width: w - left + 1, height: h }
            } else {
                Rectangle { position: pos, width: left, height: h }
            }
        },
    }
}

impl StaticRegion {
    pub fn set_position(&mut self, position: Position)
        ensures
            *final(self) == old(self).with_rect(Rectangle { position, ..old(self).spec_rect() }),
    {
        self.position = position;
    }

    pub fn set_width(&mut self, width: usize)
        ensures
            *final(self) == old(self).with_rect(Rectangle { width, ..old(self).spec_rect() }),
    {
        self.width = width;
    }

    pub fn set_height(&mut self, height: usize)
        ensures
            *final(self) == old(self).with_rect(Rectangle { height, ..old(self).spec_rect() }),
    {
        self.height = height;
    }

    /// The two halves the region is split into, if it is split.
    pub fn children(&self) -> (r: Option<(&StaticRegion, &StaticRegion)>)
        ensures
            match r {
                Option::Some((a, b)) => self.spec_children() == Option::Some((Box::new(*a), Box::new(*b))),
                Option::None => self.spec_children() is None,
            },
    {
        match &self.children {
            Option::Some((a, b)) => Option::Some((&**a, &**b)),
            Option::None => Option::None,
        }
    }

    /// Replaces the children and lays the region out anew.
    pub fn set_children(&mut self, children: Option<(Box<StaticRegion>, Box<StaticRegion>)>)
        requires
            old(self).with_children(children).resize_fits(),
        ensures
            *final(self) == old(self).with_children(children).resized(),
    {
        self.children = children;
        self.handle_resize();
    }

    /// The region after `split`: the halves made by `split_halves` become its
    /// children, laid out by the new share.
    pub open spec fn after_split(
        self,
        id1: u16,
        split_mode: SplitMode,
        scale_percent: usize,
        layout_first: bool,
    ) -> StaticRegion {
        let halves = split_halves(
            id1,
            self.spec_id(),
            self.spec_rect().position,
            self.spec_rect().width,
            self.spec_rect().height,
            self.spec_children(),
            self.spec_split(),
            split_mode,
            scale_percent,
            layout_first,
        );
        self.with_split_data(mode_split_data(split_mode, scale_percent)).with_children(
            Option::Some((Box::new(halves.0), Box::new(halves.1))),
        ).resized()
    }

    /// `split` computes without overflow.
    pub open spec fn split_computes(
        self,
        id1: u16,
        split_mode: SplitMode,
        scale_percent: usize,
        layout_first: bool,
    ) -> bool {
        let halves = split_halves(
            id1,
            self.spec_id(),
            self.spec_rect().position,
            self.spec_rect().width,
            self.spec_rect().height,
            self.spec_children(),
            self.spec_split(),
            split_mode,
            scale_percent,
            layout_first,
        );
        &&& split_halves_fit(
            id1,
            self.spec_id(),
            self.spec_rect().position,
            self.spec_rect().width,
            self.spec_rect().height,
            self.spec_children(),
            self.spec_split(),
            split_mode,
            scale_percent,
            layout_first,
        )
        &&& self.with_split_data(mode_split_data(split_mode, scale_percent)).with_children(
            Option::Some((Box::new(halves.0), Box::new(halves.1))),
        ).resize_fits()
    }

    /// Whether `split` can be carried out; see `split_computes`.
    pub fn can_split(&self, id1: u16, split_mode: SplitMode, scale_percent: usize, layout_first: bool) -> (r: bool)
        ensures
            r == self.split_computes(id1, split_mode, scale_percent, layout_first),
    {
        let sd = match split_mode {
            SplitMode::Vertical => SplitData::Vertical(scale_percent),
            SplitMode::Horizon => SplitData::Horizon(scale_percent),
        };
        proof {
            lemma_split_halves_fit(id1, self.id, self.position, self.width, self.height, self.children,
                self.split_data, split_mode, scale_percent, layout_first);
        }
        if !split_fits_exec(sd, self.position, self.width, self.height) {
            return false;
        }
        let target = taker_rect_exec(split_mode, scale_percent, self.position, self.width, self.height, layout_first);
        children_fit(&self.children, self.split_data, target)
    }

    /// Splits the region in two by `split_mode`, the first half taking
    /// `scale_percent` percent of it. Children it had move into the second
    /// half when `layout_first` holds, else into the first. Returns the ids of
    /// the two halves.
    pub fn split(
        &mut self,
        allocator: &mut RegionIdAllocator,
        split_mode: SplitMode,
        scale_percent: usize,
        layout_first: bool,
    ) -> (ids: (u16, u16))
        requires
            old(self).split_computes(old(allocator).next_id(), split_mode, scale_percent, layout_first),
        ensures
            *final(self) == old(self).after_split(old(allocator).next_id(), split_mode, scale_percent, layout_first),
            ids == (old(allocator).next_id(), following_id(old(allocator).next_id())),
            final(allocator).next_id() == following_id(following_id(old(allocator).next_id())),
    {
        let children = self.children.take();
        let (first, second) = split_into_halves(
            allocator,
            self.id,
            self.position,
            self.width,
            self.height,
            children,
            self.split_data,
            split_mode,
            scale_percent,
            layout_first,
        );
        let ids = (first.id(), second.id());
        self.set_split_data(
            match split_mode {
                SplitMode::Vertical => SplitData::Vertical(scale_percent),
                SplitMode::Horizon => SplitData::Horizon(scale_percent),
            },
        );
        self.set_children(Option::Some((Box::new(first), Box::new(second))));
        ids
    }
}


/// The ids of the leaves of a region, left (or upper) halves first.
pub closed spec fn leaf_ids(node: StaticRegion) -> Seq<u16>
    decreases node,
{
    match node.children {
        Option::Some((a, b)) => leaf_ids(*a) + leaf_ids(*b),
        Option::None => seq![node.id],
    }
}

/// The first region, in pre-order (a region before its first half, the
/// first half before the second), that has id `id`.
pub closed spec fn find_in(node: StaticRegion, id: u16) -> Option<StaticRegion>
    decreases node,
{
    if node.id == id {
        Option::Some(node)
    } else {
        match node.children {
            Option::Some((a, b)) => match find_in(*a, id) {
                Option::Some(found) => Option::Some(found),
                Option::None => find_in(*b, id),
            },
            Option::None => Option::None,
        }
    }
}

impl StaticRegion {
    /// Appends the ids of the region's leaves to `result`, in `leaf_ids` order.
    pub fn fill_leaf_regions(&self, result: &mut Vec<u16>)
        ensures
            final(result)@ == old(result)@ + leaf_ids(*self),
        decreases self,
    {
        match &self.children {
            Option::Some((child1, child2)) => {
                let ghost before = result@;
                child1.fill_leaf_regions(result);
                child2.fill_leaf_regions(result);
                assert(result@ == before + (leaf_ids(**child1) + leaf_ids(**child2)));
            },
            Option::None => {
                result.push(self.id);
            },
        }
    }

    /// The region with id `id` in this subtree, as `find_in` picks it.
    pub fn find_region_by_id(&self, id: u16) -> (r: Option<&StaticRegion>)
        ensures
            match r {
                Option::Some(found) => find_in(*self, id) == Option::Some(*found),
                Option::None => find_in(*self, id) is None,
            },
        decreases self,
    {
        if self.id == id {
            return Option::Some(self);
        }
        match &self.children {
            Option::Some((child1, child2)) => {
                if let Option::Some(ans) = child1.find_region_by_id(id) {
                    return Option::Some(ans);
                }
                if let Option::Some(ans) = child2.find_region_by_id(id) {
                    return Option::Some(ans);
                }
                Option::None
            },
            Option::None => Option::None,
        }
    }
}

/// The region that fills the whole terminal but its status line; every other
/// region is a part of it.
#[derive(Debug)]
pub struct RootRegion {
    id: u16,
    split_data: SplitData,
    /// Size of the terminal, as last read.
    terminal_width: usize,
    terminal_height: usize,
    /// Width and height of the render cache the region keeps.
    cache_size: (usize, usize),
    children: Option<(Box<StaticRegion>, Box<StaticRegion>)>,
    render_line_count: bool,
}

/// A region found in the tree: the root or one below it.
pub enum RegionRef<'a> {
    Root(&'a RootRegion),
    Static(&'a StaticRegion),
}

impl RootRegion {
    pub closed spec fn spec_id(self) -> u16 { self.id }
    pub closed spec fn spec_split(self) -> SplitData { self.split_data }
    pub closed spec fn spec_terminal_size(self) -> (usize, usize) { (self.terminal_width, self.terminal_height) }
    pub closed spec fn spec_cache_size(self) -> (usize, usize) { self.cache_size }
    pub closed spec fn spec_line_count(self) -> bool { self.render_line_count }
    pub closed spec fn spec_children(self) -> Option<(Box<StaticRegion>, Box<StaticRegion>)> { self.children }

    /// The root's area, borders included: the terminal but its last line.
    pub closed spec fn spec_rect(self) -> Rectangle {
        Rectangle {
            position: Position { line: 0, offset: 0 },
            width: self.terminal_width,
            height: if self.terminal_height >= 1 { (self.terminal_height - 1) as usize } else { 0 },
        }
    }

    pub closed spec fn with_split_data(self, split_data: SplitData) -> RootRegion {
        RootRegion { split_data, ..self }
    }

    pub closed spec fn with_children(self, children: Option<(Box<StaticRegion>, Box<StaticRegion>)>) -> RootRegion {
        RootRegion { children, ..self }
    }

    pub closed spec fn with_line_count(self, render: bool) -> RootRegion {
        RootRegion { render_line_count: render, ..self }
    }

    pub closed spec fn with_terminal_size(self, width: usize, height: usize) -> RootRegion {
        RootRegion { terminal_width: width, terminal_height: height, ..self }
    }

    /// The root after `handle_resize`.
    pub closed spec fn resized(self) -> RootRegion {
        RootRegion {
            cache_size: (self.spec_rect().width, (self.spec_rect().height - 1) as usize),
            children: children_resized(self.children, self.split_data, self.spec_rect()),
            ..self
        }
    }

    /// `handle_resize` on the root computes without overflow.
    pub closed spec fn resize_fits(self) -> bool {
        &&& self.terminal_height >= 2
        &&& children_resize_fit(self.children, self.split_data, self.spec_rect())
    }

    /// A root, unsplit, for a terminal of the given size.
    pub fn new(allocator: &mut RegionIdAllocator, terminal_width: usize, terminal_height: usize) -> (r: RootRegion)
        ensures
            r.spec_id() == old(allocator).next_id(),
            r.spec_split() == SplitData::NotSplit,
            r.spec_terminal_size() == (terminal_width, terminal_height),
            r.spec_cache_size() == (terminal_width, terminal_height),
            r.spec_line_count(),
            r.spec_children() is None,
            final(allocator).next_id() == following_id(old(allocator).next_id()),
    {
        RootRegion {
            id: alloc_region_id(allocator),
            terminal_width,
            terminal_height,
            children: Option::None,
            split_data: SplitData::NotSplit,
            cache_size: (terminal_width, terminal_height),
            render_line_count: true,
        }
    }

    /// Records a new terminal size; `handle_resize` lays the regions out for it.
    pub fn set_terminal_size(&mut self, width: usize, height: usize)
        ensures
            *final(self) == old(self).with_terminal_size(width, height),
    {
        self.terminal_width = width;
        self.terminal_height = height;
    }

    /// Gives the render cache the root's area less one line.
    pub fn update_render_buffer(&mut self)
        requires
            old(self).spec_terminal_size().1 >= 2,
        ensures
            *final(self) == old(self).resized().with_children(old(self).spec_children()),
    {
        self.cache_size = (self.width(true), self.height(true) - 1);
    }

    /// Lays the root out anew for the terminal size: its render cache, then
    /// its children over their shares, down the whole tree.
    pub fn handle_resize(&mut self)
        requires
            old(self).resize_fits(),
        ensures
            *final(self) == old(self).resized(),
    {
        self.update_render_buffer();
        let children = self.children.take();
        let w = self.width(true);
        let h = self.height(true);
        self.children = resize_children(children, self.split_data, Position::new(0, 0), w, h);
    }

    /// Whether `handle_resize` can lay the tree out for a terminal of
    /// `width` by `height`; see `resize_fits`.
    pub fn resize_fits_for(&self, width: usize, height: usize) -> (r: bool)
        ensures
            r == self.with_terminal_size(width, height).resize_fits(),
    {
        height >= 2 && children_fit(
            &self.children,
            self.split_data,
            Rectangle { position: Position { line: 0, offset: 0 }, width, height: height - 1 },
        )
    }

    /// The two halves the root is split into, if it is split.
    pub fn children(&self) -> (r: Option<(&StaticRegion, &StaticRegion)>)
        ensures
            match r {
                Option::Some((a, b)) => self.spec_children() == Option::Some((Box::new(*a), Box::new(*b))),
                Option::None => self.spec_children() is None,
            },
    {
        match &self.children {
            Option::Some((a, b)) => Option::Some((&**a, &**b)),
            Option::None => Option::None,
        }
    }

    /// Replaces the children and lays the root out anew.
    pub fn set_children(&mut self, children: Option<(Box<StaticRegion>, Box<StaticRegion>)>)
        requires
            old(self).with_children(children).resize_fits(),
        ensures
            *final(self) == old(self).with_children(children).resized(),
    {
        self.children = children;
        self.handle_resize();
    }

    /// The root after `split`; see `StaticRegion::after_split`.
    pub open spec fn after_split(self, id1: u16, split_mode: SplitMode, scale_percent: usize, layout_first: bool) -> RootRegion {
        let halves = split_halves(
            id1,
            self.spec_id(),
            self.spec_rect().position,
            self.spec_rect().width,
            self.spec_rect().height,
            self.spec_children(),
            self.spec_split(),
            split_mode,
            scale_percent,
            layout_first,
        );
        self.with_split_data(mode_split_data(split_mode, scale_percent)).with_children(
            Option::Some((Box::new(halves.0), Box::new(halves.1))),
        ).resized()
    }

    /// `split` on the root computes without overflow.
    pub open spec fn split_computes(self, id1: u16, split_mode: SplitMode, scale_percent: usize, layout_first: bool) -> bool {
        let halves = split_halves(
            id1,
            self.spec_id(),
            self.spec_rect().position,
            self.spec_rect().width,
            self.spec_rect().height,
            self.spec_children(),
            self.spec_split(),
            split_mode,
            scale_percent,
            layout_first,
        );
        &&& split_halves_fit(
            id1,
            self.spec_id(),
            self.spec_rect().position,
            self.spec_rect().width,
            self.spec_rect().height,
            self.spec_children(),
            self.spec_split(),
            split_mode,
            scale_percent,
            layout_first,
        )
        &&& self.with_split_data(mode_split_data(split_mode, scale_percent)).with_children(
            Option::Some((Box::new(halves.0), Box::new(halves.1))),
        ).resize_fits()
    }

    /// Whether `split` on the root can be carried out; see `split_computes`.
    pub fn can_split(&self, id1: u16, split_mode: SplitMode, scale_percent: usize, layout_first: bool) -> (r: bool)
        ensures
            r == self.split_computes(id1, split_mode, scale_percent, layout_first),
    {
        let sd = match split_mode {
            SplitMode::Vertical => SplitData::Vertical(scale_percent),
            SplitMode::Horizon => SplitData::Horizon(scale_percent),
        };
        let pos = Position { line: 0, offset: 0 };
        let w = self.terminal_width;
        let h = if self.terminal_height >= 1 { self.terminal_height - 1 } else { 0 };
        proof {
            lemma_split_halves_fit(id1, self.id, pos, w, h, self.children,
                self.split_data, split_mode, scale_percent, layout_first);
        }
        if self.terminal_height < 2 || !split_fits_exec(sd, pos, w, h) {
            return false;
        }
        let target = taker_rect_exec(split_mode, scale_percent, pos, w, h, layout_first);
        children_fit(&self.children, self.split_data, target)
    }

    /// Splits the root in two; see `StaticRegion::split`.
    pub fn split(
        &mut self,
        allocator: &mut RegionIdAllocator,
        split_mode: SplitMode,
        scale_percent: usize,
        layout_first: bool,
    ) -> (ids: (u16, u16))
        requires
            old(self).split_computes(old(allocator).next_id(), split_mode, scale_percent, layout_first),
        ensures
            *final(self) == old(self).after_split(old(allocator).next_id(), split_mode, scale_percent, layout_first),
            ids == (old(allocator).next_id(), following_id(old(allocator).next_id())),
            final(allocator).next_id() == following_id(following_id(old(allocator).next_id())),
    {
        let position = self.position(true);
        let width = self.width(true);
        let height = self.height(true);
        let children = self.children.take();
        let (first, second) = split_into_halves(
            allocator,
            self.id,
            position,
            width,
            height,
            children,
            self.split_data,
            split_mode,
            scale_percent,
            layout_first,
        );
        let ids = (first.id(), second.id());
        self.set_split_data(
            match split_mode {
                SplitMode::Vertical => SplitData::Vertical(scale_percent),
                SplitMode::Horizon => SplitData::Horizon(scale_percent),
            },
        );
        self.set_children(Option::Some((Box::new(first), Box::new(second))));
        ids
    }

    /// The ids of the root's leaves: the root itself when unsplit.
    pub closed spec fn spec_leaf_ids(self) -> Seq<u16> {
        match self.children {
            Option::Some((a, b)) => leaf_ids(*a) + leaf_ids(*b),
            Option::None => seq![self.id],
        }
    }

    /// Appends the ids of the leaves to `result`, in `spec_leaf_ids` order.
    pub fn fill_leaf_regions(&self, result: &mut Vec<u16>)
        ensures
            final(result)@ == old(result)@ + self.spec_leaf_ids(),
    {
        match &self.children {
            Option::Some((child1, child2)) => {
                let ghost before = result@;
                child1.fill_leaf_regions(result);
                child2.fill_leaf_regions(result);
                assert(result@ == before + (leaf_ids(**child1) + leaf_ids(**child2)));
            },
            Option::None => {
                result.push(self.id);
            },
        }
    }

    /// The region with id `id`: the root, else the first found in its first
    /// half, else in its second.
    pub fn find_region_by_id(&self, id: u16) -> (r: Option<RegionRef<'_>>)
        ensures
            match r {
                Option::Some(RegionRef::Root(root)) => id == self.spec_id() && *root == *self,
                Option::Some(RegionRef::Static(found)) => id != self.spec_id() && (self.spec_children() matches Option::Some((a, b))
                    && (find_in(*a, id) matches Option::Some(x) ==> x == *found)
                    && (find_in(*a, id) is None ==> find_in(*b, id) == Option::Some(*found))),
                Option::None => id != self.spec_id() && (self.spec_children() matches Option::Some((a, b)) ==> find_in(*a, id) is None
                    && find_in(*b, id) is None),
            },
    {
        if self.id == id {
            return Option::Some(RegionRef::Root(self));
        }
        match &self.children {
            Option::Some((child1, child2)) => {
                if let Option::Some(ans) = child1.find_region_by_id(id) {
                    return Option::Some(RegionRef::Static(ans));
                }
                if let Option::Some(ans) = child2.find_region_by_id(id) {
                    return Option::Some(RegionRef::Static(ans));
                }
                Option::None
            },
            Option::None => Option::None,
        }
    }
}

impl Region for RootRegion {
    closed spec fn spec_region_id(&self) -> u16 { self.id }

    closed spec fn spec_father_id(&self) -> Option<u16> { Option::None }

    closed spec fn position_defined(&self, edge: bool) -> bool { true }

    closed spec fn spec_position(&self, edge: bool) -> Position {
        if edge { Position { line: 0, offset: 0 } } else { Position { line: 1, offset: 1 } }
    }

    closed spec fn spec_width(&self, edge: bool) -> usize {
        if edge {
            self.terminal_width
        } else if self.terminal_width >= 2 {
            (self.terminal_width - 2) as usize
        } else {
            0
        }
    }

    closed spec fn spec_height(&self, edge: bool) -> usize {
        if edge {
            if self.terminal_height >= 1 { (self.terminal_height - 1) as usize } else { 0 }
        } else if self.terminal_height >= 3 {
            (self.terminal_height - 3) as usize
        } else {
            0
        }
    }

    closed spec fn spec_split_data(&self) -> SplitData { self.split_data }

    closed spec fn spec_render_line_count(&self) -> bool { self.render_line_count }

    fn id(&self) -> (r: u16)
        ensures
            r == self.spec_id(),
    {
        self.id
    }

    fn father_id(&self) -> (r: Option<u16>) {
        Option::None
    }

    fn position(&self, edge: bool) -> (r: Position) {
        if edge {
            Position::new(0, 0)
        } else {
            Position::new(1, 1)
        }
    }

    fn width(&self, edge: bool) -> (r: usize) {
        if edge {
            self.terminal_width
        } else {
            self.terminal_width.saturating_sub(2)
        }
    }

    fn height(&self, edge: bool) -> (r: usize) {
        if edge {
            self.terminal_height.saturating_sub(1)
        } else {
            self.terminal_height.saturating_sub(3)
        }
    }

    fn render_line_count(&self) -> (r: bool) {
        self.render_line_count
    }

    fn set_render_line_count_enabled(&mut self, render: bool)
        ensures
            *final(self) == old(self).with_line_count(render),
    {
        self.render_line_count = render;
    }

    fn split_data(&self) -> (r: SplitData) {
        self.split_data
    }

    fn set_split_data(&mut self, split_data: SplitData)
        ensures
            *final(self) == old(self).with_split_data(split_data),
    {
        self.split_data = split_data;
    }

    fn set_father(&mut self, id: u16)
        ensures
            *final(self) == *old(self),
    {
    }
}


/// Laying a region out over `r1` and then over `r2` gives what laying it out
/// over `r2` alone gives: a layout depends on the last area only.
pub proof fn lemma_resize_twice(n: StaticRegion, r1: Rectangle, r2: Rectangle)
    ensures
        n.resized_at(r1).resized_at(r2) == n.resized_at(r2),
    decreases n,
{
    match n.children {
        Option::Some((a, b)) => {
            match n.split_data {
                SplitData::NotSplit => {},
                _ => {
                    let sd = n.split_data;
                    lemma_resize_twice(*a, first_child_rect(sd, r1.position, r1.width, r1.height, a.position),
                        first_child_rect(sd, r2.position, r2.width, r2.height, a.position));
                    lemma_resize_twice(*b, second_child_rect(sd, r1.position, r1.width, r1.height),
                        second_child_rect(sd, r2.position, r2.width, r2.height));
                    let a1 = (*a).resized_at(first_child_rect(sd, r1.position, r1.width, r1.height, a.position));
                    assert(a1.position == match sd {
                        SplitData::Horizon(_) => r1.position,
                        _ => a.position,
                    });
                },
            }
        },
        Option::None => {},
    }
}

/// `handle_resize` is idempotent: a second call changes nothing.
pub proof fn lemma_handle_resize_idempotent(n: StaticRegion)
    ensures
        n.resized().resized() == n.resized(),
{
    lemma_resize_twice(n, n.spec_rect(), n.spec_rect());
}

/// Laying a region out keeps its tree: the same leaves, in the same order.
pub proof fn lemma_resize_keeps_leaves(n: StaticRegion, r: Rectangle)
    ensures
        leaf_ids(n.resized_at(r)) == leaf_ids(n),
    decreases n,
{
    match n.children {
        Option::Some((a, b)) => {
            match n.split_data {
                SplitData::NotSplit => {},
                _ => {
                    let sd = n.split_data;
                    lemma_resize_keeps_leaves(*a, first_child_rect(sd, r.position, r.width, r.height, a.position));
                    lemma_resize_keeps_leaves(*b, second_child_rect(sd, r.position, r.width, r.height));
                },
            }
        },
        Option::None => {},
    }
}

/// Laying a region out keeps every region's id, father, share and
/// line-number setting: only areas and cache sizes change.
pub proof fn lemma_resize_keeps_regions(n: StaticRegion, r: Rectangle, id: u16)
    ensures
        find_in(n.resized_at(r), id) is Some == find_in(n, id) is Some,
        find_in(n, id) matches Option::Some(x) ==> (find_in(n.resized_at(r), id) matches Option::Some(y)
            && y.spec_id() == x.spec_id() && y.spec_father() == x.spec_father()
            && y.spec_split() == x.spec_split() && y.spec_line_count() == x.spec_line_count()
            && y.spec_info().children == x.spec_info().children),
    decreases n,
{
    match n.children {
        Option::Some((a, b)) => {
            match n.split_data {
                SplitData::NotSplit => {},
                _ => {
                    let sd = n.split_data;
                    lemma_resize_keeps_regions(*a, first_child_rect(sd, r.position, r.width, r.height, a.position), id);
                    lemma_resize_keeps_regions(*b, second_child_rect(sd, r.position, r.width, r.height), id);
                },
            }
        },
        Option::None => {},
    }
}

/// After `handle_resize`, the two children of a split region share out its
/// area: side by side (or one above the other) they cover it, overlapping in
/// one border column (or line). For a vertical split this needs the first
/// child to sit at the region's corner already, as the layout keeps its position.
pub proof fn lemma_resize_tiles(n: StaticRegion)
    requires
        n.resize_fits(),
        n.spec_children() is Some,
        n.spec_split() !is NotSplit,
        n.spec_split() is Vertical ==> n.spec_children().unwrap().0.spec_rect().position == n.spec_rect().position,
    ensures
        ({
            let (a, b) = n.resized().spec_children().unwrap();
            let p = n.spec_rect();
            &&& a.spec_rect().position == p.position
            &&& match n.spec_split() {
                SplitData::Vertical(s) => {
                    &&& a.spec_rect().height == p.height * s / 100
                    &&& a.spec_rect().width == p.width && b.spec_rect().width == p.width
                    &&& a.spec_rect().height + b.spec_rect().height == p.height + 1
                    &&& b.spec_rect().position.line == a.spec_rect().position.line + a.spec_rect().height - 1
                    &&& b.spec_rect().position.offset == p.position.offset
                },
                _ => {
                    &&& a.spec_rect().width == p.width * n.spec_split().scale().unwrap() / 100
                    &&& a.spec_rect().height == p.height && b.spec_rect().height == p.height
                    &&& a.spec_rect().width + b.spec_rect().width == p.width + 1
                    &&& b.spec_rect().position.offset == a.spec_rect().position.offset + a.spec_rect().width - 1
                    &&& b.spec_rect().position.line == p.position.line
                },
            }
        }),
{
    let (a, b) = n.children.unwrap();
    let sd = n.split_data;
    let r = n.spec_rect();
    let ra = first_child_rect(sd, r.position, r.width, r.height, a.position);
    let rb = second_child_rect(sd, r.position, r.width, r.height);
    assert(split_fits(sd, r.position, r.width, r.height));
    assert(n.resized().children == Option::Some((Box::new((*a).resized_at(ra)), Box::new((*b).resized_at(rb)))));
    assert((*a).resized_at(ra).spec_rect() == ra);
    assert((*b).resized_at(rb).spec_rect() == rb);
}


proof fn lemma_with_father_keeps_leaves(c: StaticRegion, father: u16)
    ensures
        leaf_ids(c.with_father(father)) == leaf_ids(c),
{
}

proof fn lemma_adopted_leaves(
    target: StaticRegion,
    children: Option<(Box<StaticRegion>, Box<StaticRegion>)>,
    sd: SplitData,
)
    requires
        target.spec_children() is None,
    ensures
        leaf_ids(adopted(target, children, sd)) == match children {
            Option::Some((c1, c2)) => leaf_ids(*c1) + leaf_ids(*c2),
            Option::None => seq![target.spec_id()],
        },
        adopted(target, children, sd).spec_id() == target.spec_id(),
        adopted(target, children, sd).spec_father() == target.spec_father(),
        adopted(target, children, sd).spec_rect() == target.spec_rect(),
{
    match children {
        Option::Some((c1, c2)) => {
            let m = target.with_split_data(sd).with_children(
                Option::Some((Box::new((*c1).with_father(target.id)), Box::new((*c2).with_father(target.id)))),
            );
            lemma_resize_keeps_leaves(m, m.spec_rect());
            lemma_with_father_keeps_leaves(*c1, target.id);
            lemma_with_father_keeps_leaves(*c2, target.id);
        },
        Option::None => {},
    }
}

/// What `split` does to the leaves: an unsplit region becomes the two new
/// halves; a split region's leaves stay, in order, with the new half that
/// does not take them over placed before them (`layout_first`) or after them.
pub proof fn lemma_split_leaves(n: StaticRegion, id1: u16, split_mode: SplitMode, scale_percent: usize, layout_first: bool)
    ensures
        leaf_ids(n.after_split(id1, split_mode, scale_percent, layout_first)) == if n.spec_children() is None {
            seq![id1, following_id(id1)]
        } else if layout_first {
            seq![id1] + leaf_ids(n)
        } else {
            leaf_ids(n) + seq![following_id(id1)]
        },
{
    let new_sd = mode_split_data(split_mode, scale_percent);
    let r = n.spec_rect();
    let first = StaticRegion::fresh(id1, n.id, first_child_rect(new_sd, r.position, r.width, r.height, r.position));
    let second = StaticRegion::fresh(following_id(id1), n.id, second_child_rect(new_sd, r.position, r.width, r.height));
    lemma_adopted_leaves(first, n.children, n.split_data);
    lemma_adopted_leaves(second, n.children, n.split_data);
    let halves = split_halves(id1, n.id, r.position, r.width, r.height, n.children, n.split_data, split_mode,
        scale_percent, layout_first);
    let m = n.with_split_data(new_sd).with_children(Option::Some((Box::new(halves.0), Box::new(halves.1))));
    lemma_resize_keeps_leaves(m, m.spec_rect());
    assert(n.after_split(id1, split_mode, scale_percent, layout_first) == m.resized());
    assert(leaf_ids(m) == leaf_ids(halves.0) + leaf_ids(halves.1));
    assert(leaf_ids(first) == seq![id1]);
    assert(leaf_ids(second) == seq![following_id(id1)]);
    if n.children is None {
        assert(seq![id1] + seq![following_id(id1)] == seq![id1, following_id(id1)]);
    } else if layout_first {
        assert(seq![id1] + (leaf_ids(*n.children.unwrap().0) + leaf_ids(*n.children.unwrap().1))
            == seq![id1] + leaf_ids(n));
    } else {
        assert((leaf_ids(*n.children.unwrap().0) + leaf_ids(*n.children.unwrap().1)) + seq![following_id(id1)]
            == leaf_ids(n) + seq![following_id(id1)]);
    }
}

/// After `split`, the region is split by the new share into two halves with
/// the new ids, both children of it, which share out its area: the first
/// takes `scale_percent` percent of its height (vertical) or width
/// (horizontal), rounded down, and the two cover it, overlapping in one
/// border line or column.
pub proof fn lemma_split_tiles(n: StaticRegion, id1: u16, split_mode: SplitMode, scale_percent: usize, layout_first: bool)
    requires
        n.split_computes(id1, split_mode, scale_percent, layout_first),
    ensures
        ({
            let after = n.after_split(id1, split_mode, scale_percent, layout_first);
            let (a, b) = after.spec_children().unwrap();
            let p = n.spec_rect();
            &&& after.spec_children() is Some
            &&& after.spec_split() == mode_split_data(split_mode, scale_percent)
            &&& after.spec_rect() == p
            &&& a.spec_id() == id1 && b.spec_id() == following_id(id1)
            &&& a.spec_father() == n.spec_id() && b.spec_father() == n.spec_id()
            &&& a.spec_rect().position == p.position
            &&& match split_mode {
                SplitMode::Vertical => {
                    &&& a.spec_rect().width == p.width && b.spec_rect().width == p.width
                    &&& a.spec_rect().height == p.height * scale_percent / 100
                    &&& a.spec_rect().height + b.spec_rect().height == p.height + 1
                    &&& b.spec_rect().position.line == a.spec_rect().position.line + a.spec_rect().height - 1
                    &&& b.spec_rect().position.offset == p.position.offset
                },
                SplitMode::Horizon => {
                    &&& a.spec_rect().height == p.height && b.spec_rect().height == p.height
                    &&& a.spec_rect().width == p.width * scale_percent / 100
                    &&& a.spec_rect().width + b.spec_rect().width == p.width + 1
                    &&& b.spec_rect().position.offset == a.spec_rect().position.offset + a.spec_rect().width - 1
                    &&& b.spec_rect().position.line == p.position.line
                },
            }
        }),
{
    let new_sd = mode_split_data(split_mode, scale_percent);
    let r = n.spec_rect();
    let first = StaticRegion::fresh(id1, n.id, first_child_rect(new_sd, r.position, r.width, r.height, r.position));
    let second = StaticRegion::fresh(following_id(id1), n.id, second_child_rect(new_sd, r.position, r.width, r.height));
    lemma_adopted_leaves(first, n.children, n.split_data);
    lemma_adopted_leaves(second, n.children, n.split_data);
    let halves = split_halves(id1, n.id, r.position, r.width, r.height, n.children, n.split_data, split_mode,
        scale_percent, layout_first);
    let m = n.with_split_data(new_sd).with_children(Option::Some((Box::new(halves.0), Box::new(halves.1))));
    assert(halves.0.spec_rect().position == r.position);
    lemma_resize_tiles(m);
    let mr = m.spec_rect();
    assert(m.resized().children == Option::Some((
        Box::new(halves.0.resized_at(first_child_rect(new_sd, mr.position, mr.width, mr.height, halves.0.position))),
        Box::new(halves.1.resized_at(second_child_rect(new_sd, mr.position, mr.width, mr.height))),
    )));
    assert(m.resized().spec_children().unwrap().0.id == halves.0.id);
    assert(m.resized().spec_children().unwrap().1.id == halves.1.id);
    assert(m.resized().spec_children().unwrap().0.father == halves.0.father);
    assert(m.resized().spec_children().unwrap().1.father == halves.1.father);
}


/// After the root's `split`, the root is split by the new share into two
/// halves with the new ids, both children of it, which share out its area:
/// the first takes `scale_percent` percent of its height (vertical) or width
/// (horizontal), rounded down, and the two cover it, overlapping in one
/// border line or column.
pub proof fn lemma_root_split_tiles(root: RootRegion, id1: u16, split_mode: SplitMode, scale_percent: usize, layout_first: bool)
    requires
        root.split_computes(id1, split_mode, scale_percent, layout_first),
    ensures
        ({
            let after = root.after_split(id1, split_mode, scale_percent, layout_first);
            let (a, b) = after.spec_children().unwrap();
            let p = root.spec_rect();
            &&& after.spec_children() is Some
            &&& after.spec_split() == mode_split_data(split_mode, scale_percent)
            &&& after.spec_rect() == p
            &&& a.spec_id() == id1 && b.spec_id() == following_id(id1)
            &&& a.spec_father() == root.spec_id() && b.spec_father() == root.spec_id()
            &&& a.spec_rect().position == p.position
            &&& match split_mode {
                SplitMode::Vertical => {
                    &&& a.spec_rect().width == p.width && b.spec_rect().width == p.width
                    &&& a.spec_rect().height == p.height * scale_percent / 100
                    &&& a.spec_rect().height + b.spec_rect().height == p.height + 1
                    &&& b.spec_rect().position.line == a.spec_rect().position.line + a.spec_rect().height - 1
                    &&& b.spec_rect().position.offset == p.position.offset
                },
                SplitMode::Horizon => {
                    &&& a.spec_rect().height == p.height && b.spec_rect().height == p.height
                    &&& a.spec_rect().width == p.width * scale_percent / 100
                    &&& a.spec_rect().width + b.spec_rect().width == p.width + 1
                    &&& b.spec_rect().position.offset == a.spec_rect().position.offset + a.spec_rect().width - 1
                    &&& b.spec_rect().position.line == p.position.line
                },
            }
        }),
{
    let new_sd = mode_split_data(split_mode, scale_percent);
    let r = root.spec_rect();
    let first = StaticRegion::fresh(id1, root.id, first_child_rect(new_sd, r.position, r.width, r.height, r.position));
    let second = StaticRegion::fresh(following_id(id1), root.id, second_child_rect(new_sd, r.position, r.width, r.height));
    lemma_adopted_leaves(first, root.children, root.split_data);
    lemma_adopted_leaves(second, root.children, root.split_data);
    let halves = split_halves(id1, root.id, r.position, r.width, r.height, root.children, root.split_data, split_mode,
        scale_percent, layout_first);
    let m = root.with_split_data(new_sd).with_children(Option::Some((Box::new(halves.0), Box::new(halves.1))));
    assert(halves.0.spec_rect().position == r.position);
    assert(m.spec_rect() == r);
    assert(split_fits(new_sd, r.position, r.width, r.height));
    let ra = first_child_rect(new_sd, r.position, r.width, r.height, halves.0.position);
    let rb = second_child_rect(new_sd, r.position, r.width, r.height);
    assert(m.resized().children == Option::Some((Box::new(halves.0.resized_at(ra)), Box::new(halves.1.resized_at(rb)))));
    assert(halves.0.resized_at(ra).spec_rect() == ra);
    assert(halves.1.resized_at(rb).spec_rect() == rb);
    assert(root.after_split(id1, split_mode, scale_percent, layout_first) == m.resized());
}

/// A fresh region has the id, father and area it was made with, no share
/// and no halves, a render cache of its area, and shows line numbers.
pub proof fn lemma_fresh(id: u16, father: u16, r: Rectangle)
    ensures
        StaticRegion::fresh(id, father, r).spec_id() == id,
        StaticRegion::fresh(id, father, r).spec_father() == father,
        StaticRegion::fresh(id, father, r).spec_rect() == r,
        StaticRegion::fresh(id, father, r).spec_split() == SplitData::NotSplit,
        StaticRegion::fresh(id, father, r).spec_children() is None,
        StaticRegion::fresh(id, father, r).spec_cache_size() == (r.width, r.height),
        StaticRegion::fresh(id, father, r).spec_line_count(),
{
}

/// Where a region below the root lies: its whole area is its rectangle; the
/// area inside the border starts one line and one column further in and is
/// two lines and two columns smaller (none when the region is narrower), and
/// its corner can be computed unless the rectangle starts at the last line
/// or column.
pub proof fn lemma_region_geometry(n: StaticRegion, edge: bool)
    ensures
        n.position_defined(edge) == (edge || (n.spec_rect().position.line < usize::MAX
            && n.spec_rect().position.offset < usize::MAX)),
        edge ==> n.spec_position(edge) == n.spec_rect().position,
        !edge && n.position_defined(edge) ==> n.spec_position(edge) == (Position {
            line: (n.spec_rect().position.line + 1) as usize,
            offset: (n.spec_rect().position.offset + 1) as usize,
        }),
        n.spec_width(edge) == (if edge { n.spec_rect().width } else if n.spec_rect().width >= 2 {
            (n.spec_rect().width - 2) as usize
        } else {
            0
        }),
        n.spec_height(edge) == (if edge { n.spec_rect().height } else if n.spec_rect().height >= 2 {
            (n.spec_rect().height - 2) as usize
        } else {
            0
        }),
        n.spec_region_id() == n.spec_id(),
        n.spec_father_id() == Option::Some(n.spec_father()),
        n.spec_split_data() == n.spec_split(),
        n.spec_render_line_count() == n.spec_line_count(),
{
}

/// Where the root lies: the whole terminal but its last line (the status
/// line); inside the border it starts at line one, column one, and is two
/// lines and two columns smaller. It has no father.
pub proof fn lemma_root_geometry(root: RootRegion, edge: bool)
    ensures
        root.position_defined(edge),
        root.spec_position(edge) == (if edge { Position { line: 0, offset: 0 } } else { Position { line: 1, offset: 1 } }),
        root.spec_width(edge) == (if edge { root.spec_rect().width } else if root.spec_rect().width >= 2 {
            (root.spec_rect().width - 2) as usize
        } else {
            0
        }),
        root.spec_height(edge) == (if edge { root.spec_rect().height } else if root.spec_rect().height >= 2 {
            (root.spec_rect().height - 2) as usize
        } else {
            0
        }),
        root.spec_rect().width == root.spec_terminal_size().0,
        root.spec_rect().height == (if root.spec_terminal_size().1 >= 1 { root.spec_terminal_size().1 - 1 } else { 0 }),
        root.spec_region_id() == root.spec_id(),
        root.spec_father_id() is None,
        root.spec_split_data() == root.spec_split(),
        root.spec_render_line_count() == root.spec_line_count(),
{
}

/// Every leaf of a region can be found by its id.
pub proof fn lemma_leaves_are_found(n: StaticRegion, id: u16)
    requires
        leaf_ids(n).contains(id),
    ensures
        find_in(n, id) matches Option::Some(x) && x.spec_id() == id,
    decreases n,
{
    match n.children {
        Option::Some((a, b)) => {
            if n.id != id {
                if leaf_ids(*a).contains(id) {
                    lemma_leaves_are_found(*a, id);
                } else {
                    let i = choose|i: int| 0 <= i < leaf_ids(n).len() && leaf_ids(n)[i] == id;
                    assert(leaf_ids(*b)[i - leaf_ids(*a).len()] == id);
                    lemma_leaves_are_found(*b, id);
                    lemma_found_has_id(*a, id);
                }
            }
        },
        Option::None => {},
    }
}

/// What `find_in` finds has the id asked for.
pub proof fn lemma_found_has_id(n: StaticRegion, id: u16)
    ensures
        find_in(n, id) matches Option::Some(x) ==> x.spec_id() == id,
    decreases n,
{
    match n.children {
        Option::Some((a, b)) => {
            lemma_found_has_id(*a, id);
            lemma_found_has_id(*b, id);
        },
        Option::None => {},
    }
}

/// `handle_resize` on the root is idempotent.
pub proof fn lemma_root_handle_resize_idempotent(root: RootRegion)
    ensures
        root.resized().resized() == root.resized(),
{
    let r = root.spec_rect();
    match root.children {
        Option::Some((a, b)) => {
            match root.split_data {
                SplitData::NotSplit => {},
                _ => {
                    let sd = root.split_data;
                    lemma_resize_twice(*a, first_child_rect(sd, r.position, r.width, r.height, a.position),
                        first_child_rect(sd, r.position, r.width, r.height, a.position));
                    lemma_resize_twice(*b, second_child_rect(sd, r.position, r.width, r.height),
                        second_child_rect(sd, r.position, r.width, r.height));
                    let a1 = (*a).resized_at(first_child_rect(sd, r.position, r.width, r.height, a.position));
                    assert(a1.position == first_child_rect(sd, r.position, r.width, r.height, a.position).position);
                },
            }
        },
        Option::None => {},
    }
}

/// What the root's `split` does to the leaves; see `lemma_split_leaves`.
pub proof fn lemma_root_split_leaves(root: RootRegion, id1: u16, split_mode: SplitMode, scale_percent: usize, layout_first: bool)
    ensures
        root.after_split(id1, split_mode, scale_percent, layout_first).spec_leaf_ids() == if root.spec_children() is None {
            seq![id1, following_id(id1)]
        } else if layout_first {
            seq![id1] + root.spec_leaf_ids()
        } else {
            root.spec_leaf_ids() + seq![following_id(id1)]
        },
{
    let new_sd = mode_split_data(split_mode, scale_percent);
    let r = root.spec_rect();
    let first = StaticRegion::fresh(id1, root.id, first_child_rect(new_sd, r.position, r.width, r.height, r.position));
    let second = StaticRegion::fresh(following_id(id1), root.id, second_child_rect(new_sd, r.position, r.width, r.height));
    lemma_adopted_leaves(first, root.children, root.split_data);
    lemma_adopted_leaves(second, root.children, root.split_data);
    let halves = split_halves(id1, root.id, r.position, r.width, r.height, root.children, root.split_data, split_mode,
        scale_percent, layout_first);
    let ra = first_child_rect(new_sd, r.position, r.width, r.height, halves.0.position);
    let rb = second_child_rect(new_sd, r.position, r.width, r.height);
    lemma_resize_keeps_leaves(halves.0, ra);
    lemma_resize_keeps_leaves(halves.1, rb);
    assert(leaf_ids(first) == seq![id1]);
    assert(leaf_ids(second) == seq![following_id(id1)]);
    if root.children is None {
        assert(seq![id1] + seq![following_id(id1)] == seq![id1, following_id(id1)]);
    } else if layout_first {
        assert(seq![id1] + (leaf_ids(*root.children.unwrap().0) + leaf_ids(*root.children.unwrap().1))
            == seq![id1] + root.spec_leaf_ids());
    } else {
        assert((leaf_ids(*root.children.unwrap().0) + leaf_ids(*root.children.unwrap().1)) + seq![following_id(id1)]
            == root.spec_leaf_ids() + seq![following_id(id1)]);
    }
}


impl StaticRegion {
    /// The subtree after the region `id` (the first found, see `find_in`) is
    /// split; see `after_split`.
    pub closed spec fn split_at(self, id: u16, id1: u16, split_mode: SplitMode, scale_percent: usize, layout_first: bool) -> StaticRegion
        decreases self,
    {
        if self.id == id {
            self.after_split(id1, split_mode, scale_percent, layout_first)
        } else {
            match self.children {
                Option::Some((a, b)) => if find_in(*a, id) is Some {
                    self.with_children(Option::Some((Box::new((*a).split_at(id, id1, split_mode, scale_percent, layout_first)), b)))
                } else {
                    self.with_children(Option::Some((a, Box::new((*b).split_at(id, id1, split_mode, scale_percent, layout_first)))))
                },
                Option::None => self,
            }
        }
    }

    /// `split_at` computes without overflow.
    pub closed spec fn split_at_computes(self, id: u16, id1: u16, split_mode: SplitMode, scale_percent: usize, layout_first: bool) -> bool
        decreases self,
    {
        if self.id == id {
            self.split_computes(id1, split_mode, scale_percent, layout_first)
        } else {
            match self.children {
                Option::Some((a, b)) => if find_in(*a, id) is Some {
                    (*a).split_at_computes(id, id1, split_mode, scale_percent, layout_first)
                } else {
                    (*b).split_at_computes(id, id1, split_mode, scale_percent, layout_first)
                },
                Option::None => true,
            }
        }
    }

    /// Whether `split_region_by_id` can split the region `id` of this
    /// subtree; see `split_at_computes`.
    pub fn can_split_at(&self, id: u16, id1: u16, split_mode: SplitMode, scale_percent: usize, layout_first: bool) -> (r: bool)
        ensures
            r == self.split_at_computes(id, id1, split_mode, scale_percent, layout_first),
        decreases self,
    {
        if self.id == id {
            return self.can_split(id1, split_mode, scale_percent, layout_first);
        }
        match &self.children {
            Option::Some((a, b)) => {
                if a.find_region_by_id(id).is_some() {
                    a.can_split_at(id, id1, split_mode, scale_percent, layout_first)
                } else {
                    b.can_split_at(id, id1, split_mode, scale_percent, layout_first)
                }
            },
            Option::None => true,
        }
    }

    /// Splits the region `id` of this subtree; see `split`.
    pub fn split_region_by_id(
        &mut self,
        id: u16,
        allocator: &mut RegionIdAllocator,
        split_mode: SplitMode,
        scale_percent: usize,
        layout_first: bool,
    ) -> (ids: (u16, u16))
        requires
            find_in(*old(self), id) is Some,
            old(self).split_at_computes(id, old(allocator).next_id(), split_mode, scale_percent, layout_first),
        ensures
            *final(self) == old(self).split_at(id, old(allocator).next_id(), split_mode, scale_percent, layout_first),
            ids == (old(allocator).next_id(), following_id(old(allocator).next_id())),
            final(allocator).next_id() == following_id(following_id(old(allocator).next_id())),
        decreases old(self).spec_children(),
    {
        if self.id == id {
            return self.split(allocator, split_mode, scale_percent, layout_first);
        }
        let children = self.children.take();
        match children {
            Option::Some((a, b)) => {
                proof {
                    assert(decreases_to!(children => a));
                    assert(decreases_to!(children => b));
                }
                let mut a: StaticRegion = *a;
                let mut b: StaticRegion = *b;
                if a.find_region_by_id(id).is_some() {
                    let ids = a.split_region_by_id(id, allocator, split_mode, scale_percent, layout_first);
                    self.children = Option::Some((Box::new(a), Box::new(b)));
                    ids
                } else {
                    let ids = b.split_region_by_id(id, allocator, split_mode, scale_percent, layout_first);
                    self.children = Option::Some((Box::new(a), Box::new(b)));
                    ids
                }
            },
            Option::None => {
                proof { assert(false); }
                (0, 0)
            },
        }
    }

    /// The subtree after the region `id` (the first found) takes share `sd`
    /// and is laid out anew.
    pub closed spec fn resplit_at(self, id: u16, sd: SplitData) -> StaticRegion
        decreases self,
    {
        if self.id == id {
            self.with_split_data(sd).resized()
        } else {
            match self.children {
                Option::Some((a, b)) => if find_in(*a, id) is Some {
                    self.with_children(Option::Some((Box::new((*a).resplit_at(id, sd)), b)))
                } else {
                    self.with_children(Option::Some((a, Box::new((*b).resplit_at(id, sd)))))
                },
                Option::None => self,
            }
        }
    }

    /// `resplit_at` computes without overflow.
    pub closed spec fn resplit_at_computes(self, id: u16, sd: SplitData) -> bool
        decreases self,
    {
        if self.id == id {
            self.with_split_data(sd).resize_fits()
        } else {
            match self.children {
                Option::Some((a, b)) => if find_in(*a, id) is Some {
                    (*a).resplit_at_computes(id, sd)
                } else {
                    (*b).resplit_at_computes(id, sd)
                },
                Option::None => true,
            }
        }
    }

    /// Whether `resplit_region_by_id(id, sd)` can lay the region `id` out
    /// anew; see `resplit_at_computes`.
    pub fn resplit_fits(&self, id: u16, sd: SplitData) -> (r: bool)
        ensures
            r == self.resplit_at_computes(id, sd),
        decreases self,
    {
        if self.id == id {
            return children_fit(
                &self.children,
                sd,
                Rectangle { position: self.position, width: self.width, height: self.height },
            );
        }
        match &self.children {
            Option::Some((a, b)) => {
                if a.find_region_by_id(id).is_some() {
                    a.resplit_fits(id, sd)
                } else {
                    b.resplit_fits(id, sd)
                }
            },
            Option::None => true,
        }
    }

    /// Gives the region `id` of this subtree share `sd` and lays it out anew.
    pub fn resplit_region_by_id(&mut self, id: u16, sd: SplitData)
        requires
            find_in(*old(self), id) is Some,
            old(self).resplit_at_computes(id, sd),
        ensures
            *final(self) == old(self).resplit_at(id, sd),
        decreases old(self).spec_children(),
    {
        if self.id == id {
            self.set_split_data(sd);
            self.handle_resize();
            return;
        }
        let children = self.children.take();
        match children {
            Option::Some((a, b)) => {
                proof {
                    assert(decreases_to!(children => a));
                    assert(decreases_to!(children => b));
                }
                let mut a: StaticRegion = *a;
                let mut b: StaticRegion = *b;
                if a.find_region_by_id(id).is_some() {
                    a.resplit_region_by_id(id, sd);
                } else {
                    b.resplit_region_by_id(id, sd);
                }
                self.children = Option::Some((Box::new(a), Box::new(b)));
            },
            Option::None => {
                proof { assert(false); }
            },
        }
    }
}


impl RootRegion {
    /// The region `id` is the root or lies below it.
    pub closed spec fn holds_region(self, id: u16) -> bool {
        id == self.id || match self.children {
            Option::Some((a, b)) => find_in(*a, id) is Some || find_in(*b, id) is Some,
            Option::None => false,
        }
    }

    /// The tree after the region `id` is split; see `StaticRegion::split_at`.
    pub closed spec fn split_at(self, id: u16, id1: u16, split_mode: SplitMode, scale_percent: usize, layout_first: bool) -> RootRegion {
        if self.id == id {
            self.after_split(id1, split_mode, scale_percent, layout_first)
        } else {
            match self.children {
                Option::Some((a, b)) => if find_in(*a, id) is Some {
                    self.with_children(Option::Some((Box::new((*a).split_at(id, id1, split_mode, scale_percent, layout_first)), b)))
                } else {
                    self.with_children(Option::Some((a, Box::new((*b).split_at(id, id1, split_mode, scale_percent, layout_first)))))
                },
                Option::None => self,
            }
        }
    }

    /// `split_at` computes without overflow.
    pub closed spec fn split_at_computes(self, id: u16, id1: u16, split_mode: SplitMode, scale_percent: usize, layout_first: bool) -> bool {
        if self.id == id {
            self.split_computes(id1, split_mode, scale_percent, layout_first)
        } else {
            match self.children {
                Option::Some((a, b)) => if find_in(*a, id) is Some {
                    (*a).split_at_computes(id, id1, split_mode, scale_percent, layout_first)
                } else {
                    (*b).split_at_computes(id, id1, split_mode, scale_percent, layout_first)
                },
                Option::None => true,
            }
        }
    }

    /// Whether `split_region_by_id` can split the region `id` of the tree;
    /// see `split_at_computes`.
    pub fn can_split_at(&self, id: u16, id1: u16, split_mode: SplitMode, scale_percent: usize, layout_first: bool) -> (r: bool)
        ensures
            r == self.split_at_computes(id, id1, split_mode, scale_percent, layout_first),
    {
        if self.id == id {
            return self.can_split(id1, split_mode, scale_percent, layout_first);
        }
        match &self.children {
            Option::Some((a, b)) => {
                if a.find_region_by_id(id).is_some() {
                    a.can_split_at(id, id1, split_mode, scale_percent, layout_first)
                } else {
                    b.can_split_at(id, id1, split_mode, scale_percent, layout_first)
                }
            },
            Option::None => true,
        }
    }

    /// Splits the region `id` of the tree; see `StaticRegion::split`.
    pub fn split_region_by_id(
        &mut self,
        id: u16,
        allocator: &mut RegionIdAllocator,
        split_mode: SplitMode,
        scale_percent: usize,
        layout_first: bool,
    ) -> (ids: (u16, u16))
        requires
            old(self).holds_region(id),
            old(self).split_at_computes(id, old(allocator).next_id(), split_mode, scale_percent, layout_first),
        ensures
            *final(self) == old(self).split_at(id, old(allocator).next_id(), split_mode, scale_percent, layout_first),
            ids == (old(allocator).next_id(), following_id(old(allocator).next_id())),
            final(allocator).next_id() == following_id(following_id(old(allocator).next_id())),
    {
        if self.id == id {
            return self.split(allocator, split_mode, scale_percent, layout_first);
        }
        let children = self.children.take();
        match children {
            Option::Some((a, b)) => {
                let mut a: StaticRegion = *a;
                let mut b: StaticRegion = *b;
                if a.find_region_by_id(id).is_some() {
                    let ids = a.split_region_by_id(id, allocator, split_mode, scale_percent, layout_first);
                    self.children = Option::Some((Box::new(a), Box::new(b)));
                    ids
                } else {
                    let ids = b.split_region_by_id(id, allocator, split_mode, scale_percent, layout_first);
                    self.children = Option::Some((Box::new(a), Box::new(b)));
                    ids
                }
            },
            Option::None => {
                proof { assert(false); }
                (0, 0)
            },
        }
    }

    /// The tree after the region `id` takes share `sd` and is laid out anew.
    pub closed spec fn resplit_at(self, id: u16, sd: SplitData) -> RootRegion {
        if self.id == id {
            self.with_split_data(sd).resized()
        } else {
            match self.children {
                Option::Some((a, b)) => if find_in(*a, id) is Some {
                    self.with_children(Option::Some((Box::new((*a).resplit_at(id, sd)), b)))
                } else {
                    self.with_children(Option::Some((a, Box::new((*b).resplit_at(id, sd)))))
                },
                Option::None => self,
            }
        }
    }

    /// `resplit_at` computes without overflow.
    pub closed spec fn resplit_at_computes(self, id: u16, sd: SplitData) -> bool {
        if self.id == id {
            self.with_split_data(sd).resize_fits()
        } else {
            match self.children {
                Option::Some((a, b)) => if find_in(*a, id) is Some {
                    (*a).resplit_at_computes(id, sd)
                } else {
                    (*b).resplit_at_computes(id, sd)
                },
                Option::None => true,
            }
        }
    }

    /// Whether `resplit_region_by_id(id, sd)` can lay the region `id` out
    /// anew; see `resplit_at_computes`.
    pub fn resplit_fits(&self, id: u16, sd: SplitData) -> (r: bool)
        ensures
            r == self.resplit_at_computes(id, sd),
    {
        if self.id == id {
            return self.terminal_height >= 2 && children_fit(
                &self.children,
                sd,
                Rectangle {
                    position: Position { line: 0, offset: 0 },
                    width: self.terminal_width,
                    height: self.terminal_height - 1,
                },
            );
        }
        match &self.children {
            Option::Some((a, b)) => {
                if a.find_region_by_id(id).is_some() {
                    a.resplit_fits(id, sd)
                } else {
                    b.resplit_fits(id, sd)
                }
            },
            Option::None => true,
        }
    }

    /// Gives the region `id` share `sd` and lays it out anew.
    pub fn resplit_region_by_id(&mut self, id: u16, sd: SplitData)
        requires
            old(self).holds_region(id),
            old(self).resplit_at_computes(id, sd),
        ensures
            *final(self) == old(self).resplit_at(id, sd),
    {
        if self.id == id {
            self.set_split_data(sd);
            self.handle_resize();
            return;
        }
        let children = self.children.take();
        match children {
            Option::Some((a, b)) => {
                let mut a: StaticRegion = *a;
                let mut b: StaticRegion = *b;
                if a.find_region_by_id(id).is_some() {
                    a.resplit_region_by_id(id, sd);
                } else {
                    b.resplit_region_by_id(id, sd);
                }
                self.children = Option::Some((Box::new(a), Box::new(b)));
            },
            Option::None => {
                proof { assert(false); }
            },
        }
    }
}


/// What a merge did: the leaf `first` was dropped and its sibling `second`
/// folded into their father `father`. When `second` was a leaf too, `father`
/// became a leaf (`became_leaf`); else it took over `second`'s children.
#[derive(Debug, Clone, Copy, PartialEq, Eq, Structural)]
pub struct MergeRecord {
    pub father: u16,
    pub first: u16,
    pub second: u16,
    pub became_leaf: bool,
}

/// `father` (children aside) after the leaf `first` is dropped and `second`
/// folded into it.
pub closed spec fn folded(father: StaticRegion, first: StaticRegion, second: StaticRegion) -> (StaticRegion, MergeRecord) {
    match second.children {
        Option::Some((sf, ss)) => (
            father.with_split_data(second.split_data).with_children(
                Option::Some((Box::new((*sf).with_father(father.id)), Box::new((*ss).with_father(father.id)))),
            ).resized(),
            MergeRecord { father: father.id, first: first.id, second: second.id, became_leaf: false },
        ),
        Option::None => (
            father.with_children(Option::None).resized(),
            MergeRecord { father: father.id, first: first.id, second: second.id, became_leaf: true },
        ),
    }
}

/// `folded` computes without overflow.
pub closed spec fn folding_fits(father: StaticRegion, second: StaticRegion) -> bool {
    match second.children {
        Option::Some((sf, ss)) => father.with_split_data(second.split_data).with_children(
            Option::Some((Box::new((*sf).with_father(father.id)), Box::new((*ss).with_father(father.id)))),
        ).resize_fits(),
        Option::None => father.with_children(Option::None).resize_fits(),
    }
}

impl StaticRegion {
    /// The subtree after the leaf `drop` is merged away: at the first split
    /// region (in pre-order) that has `drop` as a child, `drop` is removed and
    /// its sibling folded in (see `folded`). The record says what was merged,
    /// or is none when nothing was.
    pub closed spec fn merged(self, drop: u16) -> (StaticRegion, Option<MergeRecord>)
        decreases self,
    {
        match self.children {
            Option::None => (self, Option::None),
            Option::Some((a, b)) => if self.id == drop {
                (self, Option::None)
            } else if a.id == drop && a.children is None {
                let (f, r) = folded(self, *a, *b);
                (f, Option::Some(r))
            } else if b.id == drop && b.children is None {
                let (f, r) = folded(self, *b, *a);
                (f, Option::Some(r))
            } else {
                let (a2, ra) = (*a).merged(drop);
                if ra is Some {
                    (self.with_children(Option::Some((Box::new(a2), b))), ra)
                } else {
                    let (b2, rb) = (*b).merged(drop);
                    (self.with_children(Option::Some((a, Box::new(b2)))), rb)
                }
            },
        }
    }

    /// `merged` computes without overflow.
    pub closed spec fn merge_fits(self, drop: u16) -> bool
        decreases self,
    {
        match self.children {
            Option::None => true,
            Option::Some((a, b)) => if self.id == drop {
                true
            } else if a.id == drop && a.children is None {
                folding_fits(self, *b)
            } else if b.id == drop && b.children is None {
                folding_fits(self, *a)
            } else {
                &&& (*a).merge_fits(drop)
                &&& ((*a).merged(drop).1 is None ==> (*b).merge_fits(drop))
            },
        }
    }

    /// Drops the leaf `first` (this region's child, already taken out) and
    /// folds `second` into this region; see `folded`.
    fn fold_children(&mut self, first: StaticRegion, second: StaticRegion) -> (r: MergeRecord)
        requires
            old(self).spec_children() is None,
            folding_fits(*old(self), second),
        ensures
            (*final(self), r) == folded(*old(self), first, second),
    {
        let record = MergeRecord {
            father: self.id,
            first: first.id,
            second: second.id,
            became_leaf: second.children.is_none(),
        };
        let mut second = second;
        let grandchildren = second.children.take();
        match grandchildren {
            Option::Some((sub_first, sub_second)) => {
                let id = self.id();
                let mut sub_first: StaticRegion = *sub_first;
                let mut sub_second: StaticRegion = *sub_second;
                sub_first.set_father(id);
                sub_second.set_father(id);
                self.set_split_data(second.split_data());
                self.set_children(Option::Some((Box::new(sub_first), Box::new(sub_second))));
            },
            Option::None => {
                self.set_children(Option::None);
            },
        }
        record
    }

    /// Merges the leaf `drop` away in this subtree; see `merged`.
    pub fn merge(&mut self, drop: u16) -> (r: Option<MergeRecord>)
        requires
            old(self).merge_fits(drop),
        ensures
            (*final(self), r) == old(self).merged(drop),
        decreases old(self).spec_children(),
    {
        if self.children.is_none() || self.id == drop {
            return Option::None;
        }
        let ghost orig = *self;
        let children = self.children.take();
        let ghost taken = *self;
        match children {
            Option::Some((a, b)) => {
                proof {
                    assert(decreases_to!(children => a));
                    assert(decreases_to!(children => b));
                }
                let mut a: StaticRegion = *a;
                let mut b: StaticRegion = *b;
                proof {
                    lemma_folded_ignores_children(orig, taken, a, b);
                    lemma_folded_ignores_children(orig, taken, b, a);
                }
                if a.id == drop && a.children.is_none() {
                    return Option::Some(self.fold_children(a, b));
                }
                if b.id == drop && b.children.is_none() {
                    return Option::Some(self.fold_children(b, a));
                }
                let ra = a.merge(drop);
                proof {
                    lemma_merge_none_unchanged(*old(self).spec_children().unwrap().0, drop);
                }
                if ra.is_some() {
                    self.children = Option::Some((Box::new(a), Box::new(b)));
                    return ra;
                }
                let rb = b.merge(drop);
                self.children = Option::Some((Box::new(a), Box::new(b)));
                rb
            },
            Option::None => Option::None,
        }
    }
}


/// Folding does not look at the father's old children.
proof fn lemma_folded_ignores_children(f1: StaticRegion, f2: StaticRegion, first: StaticRegion, second: StaticRegion)
    requires
        f1.with_children(Option::None) == f2.with_children(Option::None),
    ensures
        folded(f1, first, second) == folded(f2, first, second),
        folding_fits(f1, second) == folding_fits(f2, second),
{
    assert(f1.id == f2.id);
    match second.children {
        Option::Some((sf, ss)) => {
            let c = Option::Some((Box::new((*sf).with_father(f1.id)), Box::new((*ss).with_father(f1.id))));
            assert(f1.with_split_data(second.split_data).with_children(c) == f2.with_split_data(second.split_data).with_children(c));
        },
        Option::None => {},
    }
}


/// A merge that merges nothing leaves the subtree as it was.
pub proof fn lemma_merge_none_unchanged(n: StaticRegion, drop: u16)
    ensures
        n.merged(drop).1 is None ==> n.merged(drop).0 == n,
    decreases n,
{
    match n.children {
        Option::Some((a, b)) => {
            lemma_merge_none_unchanged(*a, drop);
            lemma_merge_none_unchanged(*b, drop);
            if n.merged(drop).1 is None && n.id != drop && !(a.id == drop && a.children is None)
                && !(b.id == drop && b.children is None) {
                assert(n.with_children(Option::Some((a, b))) == n);
            }
        },
        Option::None => {},
    }
}


/// The root (children aside) after the leaf `first` is dropped and `second`
/// folded into it; see `folded`.
pub closed spec fn root_folded(root: RootRegion, first: StaticRegion, second: StaticRegion) -> (RootRegion, MergeRecord) {
    match second.children {
        Option::Some((sf, ss)) => (
            root.with_split_data(second.split_data).with_children(
                Option::Some((Box::new((*sf).with_father(root.id)), Box::new((*ss).with_father(root.id)))),
            ).resized(),
            MergeRecord { father: root.id, first: first.id, second: second.id, became_leaf: false },
        ),
        Option::None => (
            root.with_children(Option::None).resized(),
            MergeRecord { father: root.id, first: first.id, second: second.id, became_leaf: true },
        ),
    }
}

/// `root_folded` computes without overflow.
pub closed spec fn root_folding_fits(root: RootRegion, second: StaticRegion) -> bool {
    match second.children {
        Option::Some((sf, ss)) => root.with_split_data(second.split_data).with_children(
            Option::Some((Box::new((*sf).with_father(root.id)), Box::new((*ss).with_father(root.id)))),
        ).resize_fits(),
        Option::None => root.with_children(Option::None).resize_fits(),
    }
}

impl StaticRegion {
    /// The subtree after a merge of the leaf `drop` inside the region
    /// `region_id` (the first found); see `merged`.
    pub closed spec fn merged_at(self, region_id: u16, drop: u16) -> (StaticRegion, Option<MergeRecord>)
        decreases self,
    {
        if self.id == region_id {
            self.merged(drop)
        } else {
            match self.children {
                Option::Some((a, b)) => if find_in(*a, region_id) is Some {
                    let (a2, r) = (*a).merged_at(region_id, drop);
                    (self.with_children(Option::Some((Box::new(a2), b))), r)
                } else {
                    let (b2, r) = (*b).merged_at(region_id, drop);
                    (self.with_children(Option::Some((a, Box::new(b2)))), r)
                },
                Option::None => (self, Option::None),
            }
        }
    }

    /// `merged_at` computes without overflow.
    pub closed spec fn merge_at_fits(self, region_id: u16, drop: u16) -> bool
        decreases self,
    {
        if self.id == region_id {
            self.merge_fits(drop)
        } else {
            match self.children {
                Option::Some((a, b)) => if find_in(*a, region_id) is Some {
                    (*a).merge_at_fits(region_id, drop)
                } else {
                    (*b).merge_at_fits(region_id, drop)
                },
                Option::None => true,
            }
        }
    }

    /// Merges the leaf `drop` away inside the region `region_id` of this subtree.
    pub fn merge_region_by_id(&mut self, region_id: u16, drop: u16) -> (r: Option<MergeRecord>)
        requires
            find_in(*old(self), region_id) is Some,
            old(self).merge_at_fits(region_id, drop),
        ensures
            (*final(self), r) == old(self).merged_at(region_id, drop),
        decreases old(self).spec_children(),
    {
        if self.id == region_id {
            return self.merge(drop);
        }
        let children = self.children.take();
        match children {
            Option::Some((a, b)) => {
                proof {
                    assert(decreases_to!(children => a));
                    assert(decreases_to!(children => b));
                }
                let mut a: StaticRegion = *a;
                let mut b: StaticRegion = *b;
                let r = if a.find_region_by_id(region_id).is_some() {
                    a.merge_region_by_id(region_id, drop)
                } else {
                    b.merge_region_by_id(region_id, drop)
                };
                self.children = Option::Some((Box::new(a), Box::new(b)));
                r
            },
            Option::None => {
                proof { assert(false); }
                Option::None
            },
        }
    }
}

/// Folding into the root does not look at its old children.
proof fn lemma_root_folded_ignores_children(f1: RootRegion, f2: RootRegion, first: StaticRegion, second: StaticRegion)
    requires
        f1.with_children(Option::None) == f2.with_children(Option::None),
    ensures
        root_folded(f1, first, second) == root_folded(f2, first, second),
        root_folding_fits(f1, second) == root_folding_fits(f2, second),
{
    assert(f1.id == f2.id);
    match second.children {
        Option::Some((sf, ss)) => {
            let c = Option::Some((Box::new((*sf).with_father(f1.id)), Box::new((*ss).with_father(f1.id))));
            assert(f1.with_split_data(second.split_data).with_children(c) == f2.with_split_data(second.split_data).with_children(c));
        },
        Option::None => {},
    }
}

impl RootRegion {
    /// The tree after the leaf `drop` is merged away; see `StaticRegion::merged`.
    pub closed spec fn merged(self, drop: u16) -> (RootRegion, Option<MergeRecord>) {
        match self.children {
            Option::None => (self, Option::None),
            Option::Some((a, b)) => if self.id == drop {
                (self, Option::None)
            } else if a.id == drop && a.children is None {
                let (f, r) = root_folded(self, *a, *b);
                (f, Option::Some(r))
            } else if b.id == drop && b.children is None {
                let (f, r) = root_folded(self, *b, *a);
                (f, Option::Some(r))
            } else {
                let (a2, ra) = (*a).merged(drop);
                if ra is Some {
                    (self.with_children(Option::Some((Box::new(a2), b))), ra)
                } else {
                    let (b2, rb) = (*b).merged(drop);
                    (self.with_children(Option::Some((a, Box::new(b2)))), rb)
                }
            },
        }
    }

    /// `merged` computes without overflow.
    pub closed spec fn merge_fits(self, drop: u16) -> bool {
        match self.children {
            Option::None => true,
            Option::Some((a, b)) => if self.id == drop {
                true
            } else if a.id == drop && a.children is None {
                root_folding_fits(self, *b)
            } else if b.id == drop && b.children is None {
                root_folding_fits(self, *a)
            } else {
                &&& (*a).merge_fits(drop)
                &&& ((*a).merged(drop).1 is None ==> (*b).merge_fits(drop))
            },
        }
    }

    fn fold_children(&mut self, first: StaticRegion, second: StaticRegion) -> (r: MergeRecord)
        requires
            old(self).spec_children() is None,
            root_folding_fits(*old(self), second),
        ensures
            (*final(self), r) == root_folded(*old(self), first, second),
    {
        let record = MergeRecord {
            father: self.id,
            first: first.id(),
            second: second.id(),
            became_leaf: second.children().is_none(),
        };
        let mut second = second;
        let grandchildren = second.children.take();
        match grandchildren {
            Option::Some((sub_first, sub_second)) => {
                let id = self.id();
                let mut sub_first: StaticRegion = *sub_first;
                let mut sub_second: StaticRegion = *sub_second;
                sub_first.set_father(id);
                sub_second.set_father(id);
                self.set_split_data(second.split_data());
                self.set_children(Option::Some((Box::new(sub_first), Box::new(sub_second))));
            },
            Option::None => {
                self.set_children(Option::None);
            },
        }
        record
    }

    /// Merges the leaf `drop` away; see `StaticRegion::merge`.
    pub fn merge(&mut self, drop: u16) -> (r: Option<MergeRecord>)
        requires
            old(self).merge_fits(drop),
        ensures
            (*final(self), r) == old(self).merged(drop),
    {
        if self.children.is_none() || self.id == drop {
            return Option::None;
        }
        let ghost orig = *self;
        let children = self.children.take();
        let ghost taken = *self;
        match children {
            Option::Some((a, b)) => {
                let mut a: StaticRegion = *a;
                let mut b: StaticRegion = *b;
                proof {
                    lemma_root_folded_ignores_children(orig, taken, a, b);
                    lemma_root_folded_ignores_children(orig, taken, b, a);
                }
                if a.id() == drop && a.children().is_none() {
                    return Option::Some(self.fold_children(a, b));
                }
                if b.id() == drop && b.children().is_none() {
                    return Option::Some(self.fold_children(b, a));
                }
                let ra = a.merge(drop);
                proof {
                    lemma_merge_none_unchanged(*orig.children.unwrap().0, drop);
                }
                if ra.is_some() {
                    self.children = Option::Some((Box::new(a), Box::new(b)));
                    return ra;
                }
                let rb = b.merge(drop);
                self.children = Option::Some((Box::new(a), Box::new(b)));
                rb
            },
            Option::None => Option::None,
        }
    }

    /// The tree after a merge of `drop` inside the region `region_id`.
    pub closed spec fn merged_at(self, region_id: u16, drop: u16) -> (RootRegion, Option<MergeRecord>) {
        if self.id == region_id {
            self.merged(drop)
        } else {
            match self.children {
                Option::Some((a, b)) => if find_in(*a, region_id) is Some {
                    let (a2, r) = (*a).merged_at(region_id, drop);
                    (self.with_children(Option::Some((Box::new(a2), b))), r)
                } else {
                    let (b2, r) = (*b).merged_at(region_id, drop);
                    (self.with_children(Option::Some((a, Box::new(b2)))), r)
                },
                Option::None => (self, Option::None),
            }
        }
    }

    /// `merged_at` computes without overflow.
    pub closed spec fn merge_at_fits(self, region_id: u16, drop: u16) -> bool {
        if self.id == region_id {
            self.merge_fits(drop)
        } else {
            match self.children {
                Option::Some((a, b)) => if find_in(*a, region_id) is Some {
                    (*a).merge_at_fits(region_id, drop)
                } else {
                    (*b).merge_at_fits(region_id, drop)
                },
                Option::None => true,
            }
        }
    }

    /// Merges the leaf `drop` away inside the region `region_id`.
    pub fn merge_region_by_id(&mut self, region_id: u16, drop: u16) -> (r: Option<MergeRecord>)
        requires
            old(self).holds_region(region_id),
            old(self).merge_at_fits(region_id, drop),
        ensures
            (*final(self), r) == old(self).merged_at(region_id, drop),
    {
        if self.id == region_id {
            return self.merge(drop);
        }
        let children = self.children.take();
        match children {
            Option::Some((a, b)) => {
                let mut a: StaticRegion = *a;
                let mut b: StaticRegion = *b;
                let r = if a.find_region_by_id(region_id).is_some() {
                    a.merge_region_by_id(region_id, drop)
                } else {
                    b.merge_region_by_id(region_id, drop)
                };
                self.children = Option::Some((Box::new(a), Box::new(b)));
                r
            },
            Option::None => {
                proof { assert(false); }
                Option::None
            },
        }
    }
}


/// Splitting a leaf and then merging away either half gives back the leaf
/// laid out anew, but for the share it keeps from the split; the record names
/// the region as the father that became a leaf again.
pub proof fn lemma_split_then_merge(
    n: StaticRegion,
    id1: u16,
    split_mode: SplitMode,
    scale_percent: usize,
    layout_first: bool,
    drop_first: bool,
)
    requires
        n.spec_children() is None,
        id1 != n.spec_id(),
        following_id(id1) != n.spec_id(),
    ensures
        ({
            let drop = if drop_first { id1 } else { following_id(id1) };
            let (after, record) = n.after_split(id1, split_mode, scale_percent, layout_first).merged(drop);
            &&& record == Option::Some(MergeRecord {
                father: n.spec_id(),
                first: drop,
                second: if drop_first { following_id(id1) } else { id1 },
                became_leaf: true,
            })
            &&& after == n.with_split_data(mode_split_data(split_mode, scale_percent)).resized()
            &&& leaf_ids(after) == leaf_ids(n)
            &&& after.spec_children() is None
            &&& after.spec_id() == n.spec_id()
            &&& after.spec_father() == n.spec_father()
            &&& after.spec_rect() == n.spec_rect()
        }),
{
    let new_sd = mode_split_data(split_mode, scale_percent);
    let r = n.spec_rect();
    let halves = split_halves(id1, n.id, r.position, r.width, r.height, n.children, n.split_data, split_mode,
        scale_percent, layout_first);
    let m0 = n.with_split_data(new_sd).with_children(Option::Some((Box::new(halves.0), Box::new(halves.1))));
    let m = m0.resized();
    assert(n.after_split(id1, split_mode, scale_percent, layout_first) == m);
    let ra = first_child_rect(new_sd, r.position, r.width, r.height, halves.0.position);
    let rb = second_child_rect(new_sd, r.position, r.width, r.height);
    assert(m.children == Option::Some((Box::new(halves.0.resized_at(ra)), Box::new(halves.1.resized_at(rb)))));
    assert(halves.0.resized_at(ra).children is None);
    assert(halves.1.resized_at(rb).children is None);
}


/// Laying a region out does not look at its father.
proof fn lemma_resized_with_father(x: StaticRegion, f: u16, r: Rectangle)
    ensures
        x.with_father(f).resized_at(r) == x.resized_at(r).with_father(f),
{
}

/// Splitting a split region and merging the new, empty half away gives back
/// the region laid out anew, its children with it; the record names the
/// region as the father that took over the other half's children.
pub proof fn lemma_split_then_merge_empty_half(
    n: StaticRegion,
    id1: u16,
    split_mode: SplitMode,
    scale_percent: usize,
    layout_first: bool,
)
    requires
        n.spec_children() matches Option::Some((c1, c2)) && c1.spec_father() == n.spec_id()
            && c2.spec_father() == n.spec_id(),
        id1 != n.spec_id(),
        following_id(id1) != n.spec_id(),
    ensures
        ({
            let drop = if layout_first { id1 } else { following_id(id1) };
            let kept = if layout_first { following_id(id1) } else { id1 };
            n.after_split(id1, split_mode, scale_percent, layout_first).merged(drop) == (
                n.resized(),
                Option::Some(MergeRecord { father: n.spec_id(), first: drop, second: kept, became_leaf: false }),
            )
        }),
{
    let id2 = following_id(id1);
    let sd = n.split_data;
    let new_sd = mode_split_data(split_mode, scale_percent);
    let r = n.spec_rect();
    let (c1, c2) = n.children.unwrap();
    let first = StaticRegion::fresh(id1, n.id, first_child_rect(new_sd, r.position, r.width, r.height, r.position));
    let second = StaticRegion::fresh(id2, n.id, second_child_rect(new_sd, r.position, r.width, r.height));
    let halves = split_halves(id1, n.id, r.position, r.width, r.height, n.children, sd, split_mode,
        scale_percent, layout_first);
    let m0 = n.with_split_data(new_sd).with_children(Option::Some((Box::new(halves.0), Box::new(halves.1))));
    let after = m0.resized();
    assert(n.after_split(id1, split_mode, scale_percent, layout_first) == after);
    let ra = first_child_rect(new_sd, r.position, r.width, r.height, halves.0.position);
    let rb = second_child_rect(new_sd, r.position, r.width, r.height);
    assert(after.children == Option::Some((Box::new(halves.0.resized_at(ra)), Box::new(halves.1.resized_at(rb)))));
    // the half that took the children over, as laid out in `after`
    let (taker, taker_rect) = if layout_first { (second, rb) } else { (first, ra) };
    let t0 = taker.with_split_data(sd).with_children(
        Option::Some((Box::new((*c1).with_father(taker.id)), Box::new((*c2).with_father(taker.id)))),
    );
    assert(adopted(taker, n.children, sd) == t0.resized());
    lemma_resize_twice(t0, t0.spec_rect(), taker_rect);
    let t = t0.resized_at(taker_rect);
    if layout_first {
        assert(halves.1 == t0.resized());
        assert(after.children.unwrap().1 == t);
    } else {
        assert(halves.0 == t0.resized());
        assert(after.children.unwrap().0 == t);
    }
    let dropped = if layout_first { halves.0.resized_at(ra) } else { halves.1.resized_at(rb) };
    assert(dropped.children is None);
    let (f, rec) = folded(after, dropped, t);
    assert(after.merged(if layout_first { id1 } else { id2 }) == (f, Option::Some(rec)));
    let (sf, ss) = t.children.unwrap();
    let y = Option::Some((Box::new((*sf).with_father(n.id)), Box::new((*ss).with_father(n.id))));
    let fin = after.with_split_data(sd).with_children(y);
    assert(fin.spec_rect() == r);
    match sd {
        SplitData::NotSplit => {
            assert((*sf).with_father(n.id) == *c1);
            assert((*ss).with_father(n.id) == *c2);
            assert(fin.resized() == n.resized());
        },
        _ => {
            let x1 = first_child_rect(sd, taker_rect.position, taker_rect.width, taker_rect.height, (*c1).with_father(taker.id).position);
            let x2 = second_child_rect(sd, taker_rect.position, taker_rect.width, taker_rect.height);
            assert(*sf == (*c1).with_father(taker.id).resized_at(x1));
            assert(*ss == (*c2).with_father(taker.id).resized_at(x2));
            let r1 = first_child_rect(sd, r.position, r.width, r.height, c1.position);
            let r2 = second_child_rect(sd, r.position, r.width, r.height);
            assert(first_child_rect(sd, r.position, r.width, r.height, (*sf).with_father(n.id).position) == r1);
            lemma_resized_with_father(*c1, taker.id, x1);
            lemma_resized_with_father(*c2, taker.id, x2);
            lemma_resized_with_father((*c1).resized_at(x1), n.id, r1);
            lemma_resized_with_father((*c2).resized_at(x2), n.id, r2);
            lemma_resize_twice(*c1, x1, r1);
            lemma_resize_twice(*c2, x2, r2);
            assert((*c1).resized_at(x1).with_father(taker.id).with_father(n.id) == (*c1).resized_at(x1));
            assert((*c2).resized_at(x2).with_father(taker.id).with_father(n.id) == (*c2).resized_at(x2));
            assert((*sf).with_father(n.id).resized_at(r1) == (*c1).resized_at(r1));
            assert((*ss).with_father(n.id).resized_at(r2) == (*c2).resized_at(r2));
            assert(fin.resized() == n.resized());
        },
    }
    assert(f == fin.resized());
}


/// Laying children out by one share and then by another of the same
/// direction is laying them out by the second alone.
proof fn lemma_children_reshared(
    children: Option<(Box<StaticRegion>, Box<StaticRegion>)>,
    sd1: SplitData,
    sd2: SplitData,
    r: Rectangle,
)
    requires
        same_direction(sd1, sd2),
    ensures
        children_resized(children_resized(children, sd1, r), sd2, r) == children_resized(children, sd2, r),
{
    match children {
        Option::Some((a, b)) => {
            match sd1 {
                SplitData::NotSplit => {},
                _ => {
                    let ra = first_child_rect(sd1, r.position, r.width, r.height, a.position);
                    let rb = second_child_rect(sd1, r.position, r.width, r.height);
                    let a1 = (*a).resized_at(ra);
                    assert(a1.position == ra.position);
                    assert(first_child_rect(sd2, r.position, r.width, r.height, a1.position)
                        == first_child_rect(sd2, r.position, r.width, r.height, a.position));
                    lemma_resize_twice(*a, ra, first_child_rect(sd2, r.position, r.width, r.height, a.position));
                    lemma_resize_twice(*b, rb, second_child_rect(sd2, r.position, r.width, r.height));
                },
            }
        },
        Option::None => {},
    }
}

/// Re-sharing keeps every region of the subtree where it can be found.
proof fn lemma_resplit_keeps_found(n: StaticRegion, id: u16, sd: SplitData)
    requires
        find_in(n, id) is Some,
    ensures
        find_in(n.resplit_at(id, sd), id) is Some,
    decreases n,
{
    if n.id != id {
        let (a, b) = n.children.unwrap();
        if find_in(*a, id) is Some {
            lemma_resplit_keeps_found(*a, id, sd);
        } else {
            lemma_resplit_keeps_found(*b, id, sd);
        }
    }
}

/// Re-sharing a region of the subtree twice, both shares of one direction,
/// is re-sharing it once with the second share.
pub proof fn lemma_subtree_resplit_twice(n: StaticRegion, id: u16, sd1: SplitData, sd2: SplitData)
    requires
        same_direction(sd1, sd2),
    ensures
        n.resplit_at(id, sd1).resplit_at(id, sd2) == n.resplit_at(id, sd2),
    decreases n,
{
    if n.id == id {
        lemma_children_reshared(n.children, sd1, sd2, n.spec_rect());
    } else {
        match n.children {
            Option::Some((a, b)) => {
                if find_in(*a, id) is Some {
                    lemma_resplit_keeps_found(*a, id, sd1);
                    lemma_subtree_resplit_twice(*a, id, sd1, sd2);
                } else {
                    lemma_subtree_resplit_twice(*b, id, sd1, sd2);
                }
            },
            Option::None => {},
        }
    }
}

/// Giving a region of the tree one share and then another of the same
/// direction is giving it the second share alone: the layout depends on the
/// last share only. With `lemma_zoom_up_then_down`, a zoom undone by the
/// opposite zoom gives back the layout of the share it started from.
pub proof fn lemma_resplit_twice(root: RootRegion, id: u16, sd1: SplitData, sd2: SplitData)
    requires
        same_direction(sd1, sd2),
    ensures
        root.resplit_at(id, sd1).resplit_at(id, sd2) == root.resplit_at(id, sd2),
{
    if root.id == id {
        lemma_children_reshared(root.children, sd1, sd2, root.spec_rect());
    } else {
        match root.children {
            Option::Some((a, b)) => {
                if find_in(*a, id) is Some {
                    lemma_resplit_keeps_found(*a, id, sd1);
                    lemma_subtree_resplit_twice(*a, id, sd1, sd2);
                } else {
                    lemma_subtree_resplit_twice(*b, id, sd1, sd2);
                }
            },
            Option::None => {},
        }
    }
}


/// Whether laying a region out computes depends on the last area only, as
/// the layout itself does (`lemma_resize_twice`).
proof fn lemma_resize_fits_twice(n: StaticRegion, r1: Rectangle, r2: Rectangle)
    ensures
        n.resized_at(r1).resize_fits_at(r2) == n.resize_fits_at(r2),
    decreases n,
{
    match n.children {
        Option::Some((a, b)) => {
            match n.split_data {
                SplitData::NotSplit => {},
                _ => {
                    let sd = n.split_data;
                    let ra1 = first_child_rect(sd, r1.position, r1.width, r1.height, a.position);
                    let rb1 = second_child_rect(sd, r1.position, r1.width, r1.height);
                    let a1 = (*a).resized_at(ra1);
                    assert(a1.position == ra1.position);
                    assert(first_child_rect(sd, r2.position, r2.width, r2.height, a1.position)
                        == first_child_rect(sd, r2.position, r2.width, r2.height, a.position));
                    lemma_resize_fits_twice(*a, ra1, first_child_rect(sd, r2.position, r2.width, r2.height, a.position));
                    lemma_resize_fits_twice(*b, rb1, second_child_rect(sd, r2.position, r2.width, r2.height));
                },
            }
        },
        Option::None => {},
    }
}

/// Whether children can be laid out by a share does not change when they
/// were laid out before by another share of the same direction.
proof fn lemma_children_reshared_fit(
    children: Option<(Box<StaticRegion>, Box<StaticRegion>)>,
    sd1: SplitData,
    sd2: SplitData,
    r: Rectangle,
)
    requires
        same_direction(sd1, sd2),
    ensures
        children_resize_fit(children_resized(children, sd1, r), sd2, r) == children_resize_fit(children, sd2, r),
{
    match children {
        Option::Some((a, b)) => {
            match sd1 {
                SplitData::NotSplit => {},
                _ => {
                    let ra = first_child_rect(sd1, r.position, r.width, r.height, a.position);
                    let rb = second_child_rect(sd1, r.position, r.width, r.height);
                    let a1 = (*a).resized_at(ra);
                    assert(a1.position == ra.position);
                    assert(first_child_rect(sd2, r.position, r.width, r.height, a1.position)
                        == first_child_rect(sd2, r.position, r.width, r.height, a.position));
                    lemma_resize_fits_twice(*a, ra, first_child_rect(sd2, r.position, r.width, r.height, a.position));
                    lemma_resize_fits_twice(*b, rb, second_child_rect(sd2, r.position, r.width, r.height));
                },
            }
        },
        Option::None => {},
    }
}

/// After a region of the subtree was re-shared, re-sharing it again by a
/// share of the same direction computes exactly when it did before.
proof fn lemma_subtree_resplit_fits_after(n: StaticRegion, id: u16, sd1: SplitData, sd2: SplitData)
    requires
        same_direction(sd1, sd2),
    ensures
        n.resplit_at(id, sd1).resplit_at_computes(id, sd2) == n.resplit_at_computes(id, sd2),
    decreases n,
{
    if n.id == id {
        lemma_children_reshared_fit(n.children, sd1, sd2, n.spec_rect());
    } else {
        match n.children {
            Option::Some((a, b)) => {
                if find_in(*a, id) is Some {
                    lemma_resplit_keeps_found(*a, id, sd1);
                    lemma_subtree_resplit_fits_after(*a, id, sd1, sd2);
                } else {
                    lemma_subtree_resplit_fits_after(*b, id, sd1, sd2);
                }
            },
            Option::None => {},
        }
    }
}

/// After a region of the tree was re-shared, re-sharing it again by a share
/// of the same direction computes exactly when it did before: a zoom can be
/// undone whenever the layout it started from could be computed.
pub proof fn lemma_resplit_fits_after(root: RootRegion, id: u16, sd1: SplitData, sd2: SplitData)
    requires
        same_direction(sd1, sd2),
    ensures
        root.resplit_at(id, sd1).resplit_at_computes(id, sd2) == root.resplit_at_computes(id, sd2),
{
    if root.id == id {
        lemma_children_reshared_fit(root.children, sd1, sd2, root.spec_rect());
    } else {
        match root.children {
            Option::Some((a, b)) => {
                if find_in(*a, id) is Some {
                    lemma_resplit_keeps_found(*a, id, sd1);
                    lemma_subtree_resplit_fits_after(*a, id, sd1, sd2);
                } else {
                    lemma_subtree_resplit_fits_after(*b, id, sd1, sd2);
                }
            },
            Option::None => {},
        }
    }
}

/// Whether folding `second` into `father` can be laid out; see `folding_fits`.
fn folding_fits_exec(father: &StaticRegion, second: &StaticRegion) -> (r: bool)
    ensures
        r == folding_fits(*father, *second),
{
    match &second.children {
        Option::Some((sf, ss)) => {
            proof {
                lemma_refathered_fit(**sf, **ss, father.id, second.split_data, father.spec_rect());
            }
            children_fit(
                &second.children,
                second.split_data,
                Rectangle { position: father.position, width: father.width, height: father.height },
            )
        },
        Option::None => true,
    }
}

/// Whether folding `second` into the root can be laid out; see `root_folding_fits`.
fn root_folding_fits_exec(root: &RootRegion, second: &StaticRegion) -> (r: bool)
    ensures
        r == root_folding_fits(*root, *second),
{
    if root.terminal_height < 2 {
        return false;
    }
    match &second.children {
        Option::Some((sf, ss)) => {
            proof {
                lemma_refathered_fit(**sf, **ss, root.id, second.split_data, root.spec_rect());
            }
            children_fit(
                &second.children,
                second.split_data,
                Rectangle {
                    position: Position { line: 0, offset: 0 },
                    width: root.terminal_width,
                    height: root.terminal_height - 1,
                },
            )
        },
        Option::None => true,
    }
}

impl StaticRegion {
    /// Whether `merge(drop)` finds something to merge in this subtree.
    pub fn finds_merge(&self, drop: u16) -> (r: bool)
        ensures
            r == self.merged(drop).1 is Some,
        decreases self,
    {
        match &self.children {
            Option::None => false,
            Option::Some((a, b)) => {
                if self.id == drop {
                    false
                } else if a.id == drop && a.children.is_none() {
                    true
                } else if b.id == drop && b.children.is_none() {
                    true
                } else {
                    a.finds_merge(drop) || b.finds_merge(drop)
                }
            },
        }
    }

    /// Whether `merge(drop)` can be carried out; see `merge_fits`.
    pub fn can_merge(&self, drop: u16) -> (r: bool)
        ensures
            r == self.merge_fits(drop),
        decreases self,
    {
        match &self.children {
            Option::None => true,
            Option::Some((a, b)) => {
                if self.id == drop {
                    true
                } else if a.id == drop && a.children.is_none() {
                    folding_fits_exec(self, b)
                } else if b.id == drop && b.children.is_none() {
                    folding_fits_exec(self, a)
                } else {
                    a.can_merge(drop) && (a.finds_merge(drop) || b.can_merge(drop))
                }
            },
        }
    }

    /// Whether `merge_region_by_id(region_id, drop)` can be carried out; see
    /// `merge_at_fits`.
    pub fn can_merge_at(&self, region_id: u16, drop: u16) -> (r: bool)
        ensures
            r == self.merge_at_fits(region_id, drop),
        decreases self,
    {
        if self.id == region_id {
            return self.can_merge(drop);
        }
        match &self.children {
            Option::Some((a, b)) => {
                if a.find_region_by_id(region_id).is_some() {
                    a.can_merge_at(region_id, drop)
                } else {
                    b.can_merge_at(region_id, drop)
                }
            },
            Option::None => true,
        }
    }
}

impl RootRegion {
    /// Whether `merge(drop)` can be carried out; see `merge_fits`.
    pub fn can_merge(&self, drop: u16) -> (r: bool)
        ensures
            r == self.merge_fits(drop),
    {
        match &self.children {
            Option::None => true,
            Option::Some((a, b)) => {
                if self.id == drop {
                    true
                } else if a.id == drop && a.children.is_none() {
                    root_folding_fits_exec(self, b)
                } else if b.id == drop && b.children.is_none() {
                    root_folding_fits_exec(self, a)
                } else {
                    a.can_merge(drop) && (a.finds_merge(drop) || b.can_merge(drop))
                }
            },
        }
    }

    /// Whether `merge_region_by_id(region_id, drop)` can be carried out; see
    /// `merge_at_fits`.
    pub fn can_merge_at(&self, region_id: u16, drop: u16) -> (r: bool)
        ensures
            r == self.merge_at_fits(region_id, drop),
    {
        if self.id == region_id {
            return self.can_merge(drop);
        }
        match &self.children {
            Option::Some((a, b)) => {
                if a.find_region_by_id(region_id).is_some() {
                    a.can_merge_at(region_id, drop)
                } else {
                    b.can_merge_at(region_id, drop)
                }
            },
            Option::None => true,
        }
    }
}

/// What the layout code reads of one region.
#[derive(Debug, Clone, Copy)]
pub struct RegionInfo {
    pub id: u16,
    pub father: Option<u16>,
    pub split_data: SplitData,
    /// The ids of the two halves, if the region is split.
    pub children: Option<(u16, u16)>,
    /// Width and height inside the border.
    pub inner_width: usize,
    pub inner_height: usize,
}

impl StaticRegion {
    pub closed spec fn spec_info(self) -> RegionInfo {
        RegionInfo {
            id: self.id,
            father: Option::Some(self.father),
            split_data: self.split_data,
            children: match self.children {
                Option::Some((a, b)) => Option::Some((a.id, b.id)),
                Option::None => Option::None,
            },
            inner_width: self.spec_width(false),
            inner_height: self.spec_height(false),
        }
    }

    pub fn info(&self) -> (r: RegionInfo)
        ensures
            r == self.spec_info(),
    {
        RegionInfo {
            id: self.id,
            father: self.father_id(),
            split_data: self.split_data,
            children: match &self.children {
                Option::Some((a, b)) => Option::Some((a.id, b.id)),
                Option::None => Option::None,
            },
            inner_width: self.width(false),
            inner_height: self.height(false),
        }
    }
}

impl RootRegion {
    pub closed spec fn spec_root_info(self) -> RegionInfo {
        RegionInfo {
            id: self.id,
            father: Option::None,
            split_data: self.split_data,
            children: match self.children {
                Option::Some((a, b)) => Option::Some((a.id, b.id)),
                Option::None => Option::None,
            },
            inner_width: self.spec_width(false),
            inner_height: self.spec_height(false),
        }
    }

    /// What is read of the region `id`: the root, else the first found below it.
    pub closed spec fn spec_info(self, id: u16) -> Option<RegionInfo> {
        if id == self.id {
            Option::Some(self.spec_root_info())
        } else {
            match self.children {
                Option::Some((a, b)) => match find_in(*a, id) {
                    Option::Some(x) => Option::Some(x.spec_info()),
                    Option::None => match find_in(*b, id) {
                        Option::Some(x) => Option::Some(x.spec_info()),
                        Option::None => Option::None,
                    },
                },
                Option::None => Option::None,
            }
        }
    }

    pub fn region_info(&self, id: u16) -> (r: Option<RegionInfo>)
        ensures
            r == self.spec_info(id),
            r is Some == self.holds_region(id),
    {
        match self.find_region_by_id(id) {
            Option::Some(RegionRef::Root(root)) => Option::Some(
                RegionInfo {
                    id: root.id,
                    father: root.father_id(),
                    split_data: root.split_data,
                    children: match &root.children {
                        Option::Some((a, b)) => Option::Some((a.id, b.id)),
                        Option::None => Option::None,
                    },
                    inner_width: root.width(false),
                    inner_height: root.height(false),
                },
            ),
            Option::Some(RegionRef::Static(region)) => Option::Some(region.info()),
            Option::None => Option::None,
        }
    }
}


/// An unsplit root is its own only leaf.
pub proof fn lemma_unsplit_root_leaves(root: RootRegion)
    requires
        root.spec_children() is None,
    ensures
        root.spec_leaf_ids() == seq![root.spec_id()],
{
}


/// What `spec_info` reads has the id asked for, and is there exactly when the
/// region is in the tree.
pub proof fn lemma_info_has_id(root: RootRegion, id: u16)
    ensures
        root.spec_info(id) matches Option::Some(info) ==> info.id == id,
        root.spec_info(id) is Some == root.holds_region(id),
{
    match root.children {
        Option::Some((a, b)) => {
            lemma_found_has_id(*a, id);
            lemma_found_has_id(*b, id);
        },
        Option::None => {},
    }
}


/// Re-sharing keeps every region of the subtree as it is found: its id,
/// father and halves; the region re-shared takes the new share, every other
/// keeps its own.
proof fn lemma_resplit_keeps_regions(n: StaticRegion, id: u16, sd: SplitData, k: u16)
    ensures
        n.resplit_at(id, sd).spec_id() == n.spec_id(),
        find_in(n.resplit_at(id, sd), k) is Some == find_in(n, k) is Some,
        find_in(n, k) matches Option::Some(x) ==> (find_in(n.resplit_at(id, sd), k) matches Option::Some(y)
            && y.spec_id() == x.spec_id() && y.spec_father() == x.spec_father()
            && y.spec_info().children == x.spec_info().children
            && y.spec_split() == if k == id { sd } else { x.spec_split() }),
    decreases n,
{
    if n.id == id {
        lemma_resize_keeps_regions(n.with_split_data(sd), n.spec_rect(), k);
    } else {
        match n.children {
            Option::Some((a, b)) => {
                lemma_resplit_keeps_regions(*a, id, sd, k);
                lemma_resplit_keeps_regions(*b, id, sd, k);
                if find_in(*a, id) is None && find_in(*a, k) is Some {
                    lemma_found_has_id(*a, k);
                }
            },
            Option::None => {},
        }
    }
}

/// Re-sharing the region `id` keeps every region of the tree as it is read:
/// its id, father and halves; the region re-shared reads the new share, every
/// other its own.
pub proof fn lemma_resplit_keeps_infos(root: RootRegion, id: u16, sd: SplitData, k: u16)
    ensures
        root.resplit_at(id, sd).spec_info(k) is Some == root.spec_info(k) is Some,
        root.spec_info(k) matches Option::Some(x) ==> (root.resplit_at(id, sd).spec_info(k) matches Option::Some(y)
            && y.id == x.id && y.father == x.father && y.children == x.children
            && y.split_data == if k == id { sd } else { x.split_data }),
{
    if root.id == id {
        match root.children {
            Option::Some((a, b)) => {
                match sd {
                    SplitData::NotSplit => {},
                    _ => {
                        let r = root.spec_rect();
                        lemma_resize_keeps_regions(*a, first_child_rect(sd, r.position, r.width, r.height, a.position), k);
                        lemma_resize_keeps_regions(*b, second_child_rect(sd, r.position, r.width, r.height), k);
                        if find_in(*a, k) is Some {
                            lemma_found_has_id(*a, k);
                        }
                        if find_in(*b, k) is Some {
                            lemma_found_has_id(*b, k);
                        }
                    },
                }
            },
            Option::None => {},
        }
    } else {
        match root.children {
            Option::Some((a, b)) => {
                lemma_resplit_keeps_regions(*a, id, sd, k);
                lemma_resplit_keeps_regions(*b, id, sd, k);
                if find_in(*a, k) is Some {
                    lemma_found_has_id(*a, k);
                }
                if find_in(*b, k) is Some {
                    lemma_found_has_id(*b, k);
                }
            },
            Option::None => {},
        }
    }
}


/// Every leaf of the tree is in the tree.
pub proof fn lemma_root_leaves_are_held(root: RootRegion, id: u16)
    requires
        root.spec_leaf_ids().contains(id),
    ensures
        root.holds_region(id),
{
    match root.children {
        Option::Some((a, b)) => {
            if leaf_ids(*a).contains(id) {
                lemma_leaves_are_found(*a, id);
            } else {
                let i = choose|i: int| 0 <= i < root.spec_leaf_ids().len() && root.spec_leaf_ids()[i] == id;
                assert(leaf_ids(*b)[i - leaf_ids(*a).len()] == id);
                lemma_leaves_are_found(*b, id);
            }
        },
        Option::None => {},
    }
}

} // verus!
