use vstd::prelude::*;
use std::collections::HashMap;
use std::collections::hash_map::Entry;
use crate::geometry::Position;
use crate::monitor::{BufferState, Monitor, MonitorError, is_first_index};
use crate::region_controller::RegionController;
use crate::render_cache::RenderState;
use crate::syntax::{has_syntax_named, path_view, syntax_for, syntax_name, syntax_table};
use syntect::parsing::SyntaxSet;
use vstd::std_specs::iter::IteratorSpec;

verus! {

broadcast use vstd::std_specs::hash::group_hash_axioms;

/// What the workspace keeps of a buffer: its id, once given, the path of the
/// file it shows, if any, that file's inode number, if it was found on disk,
/// and the name of the syntax it is shown in, once chosen. The text itself is
/// kept by its owner under the same id.
#[derive(Debug)]
pub struct BufferHandle {
    pub id: Option<usize>,
    pub absolute_path: Option<String>,
    pub ino: Option<u64>,
    pub syntax_definition: Option<String>,
}

/// The workspace as the buffers kept aside (by id), the buffers on screen
/// in order, the index of the current one among them, and the last id given.
pub type WorkspaceView = (Map<usize, BufferHandle>, Seq<BufferHandle>, Option<usize>, usize);

/// `i` is the first index in `s` of a buffer with id `id`.
pub open spec fn is_first_with_id(s: Seq<BufferHandle>, i: int, id: usize) -> bool {
    &&& 0 <= i < s.len()
    &&& s[i].id == Option::Some(id)
    &&& forall|j: int| 0 <= j < i ==> s[j].id != Option::Some(id)
}

/// Some buffer in `s` has id `id`.
pub open spec fn has_id(s: Seq<BufferHandle>, id: usize) -> bool {
    exists|i: int| 0 <= i < s.len() && s[i].id == Option::Some(id)
}

/// The first index in `s` of a buffer with id `id` (meaningful when `has_id`).
pub open spec fn first_with_id(s: Seq<BufferHandle>, id: usize) -> int {
    choose|i: int| is_first_with_id(s, i, id)
}

/// The first buffer with id `id` leaves the screen for the buffers kept aside.
pub open spec fn unobserved(v: WorkspaceView, id: usize) -> WorkspaceView {
    if has_id(v.1, id) {
        let i = first_with_id(v.1, id);
        (v.0.insert(id, v.1[i]), v.1.remove(i), v.2, v.3)
    } else {
        v
    }
}

/// The workspace after `cancel_observe_buffer(id)`: the buffer leaves the
/// screen; then, when the current index equals `id`, it is kept in range
/// (or cleared when nothing is left on screen).
pub open spec fn observe_cancelled(v: WorkspaceView, id: usize) -> WorkspaceView {
    let v1 = unobserved(v, id);
    if v1.2 == Option::Some(id) {
        if v1.1.len() == 0 {
            (v1.0, v1.1, Option::None, v1.3)
        } else {
            (v1.0, v1.1, Option::Some(((id as int) % (v1.1.len() as int)) as usize), v1.3)
        }
    } else {
        v1
    }
}

/// The workspace after `observe_buffer(id)`.
pub open spec fn observed(v: WorkspaceView, id: usize) -> WorkspaceView {
    if v.0.contains_key(id) {
        (v.0.remove(id), v.1.push(v.0[id]), v.2, v.3)
    } else {
        v
    }
}

/// A current buffer in range has an id.
pub open spec fn current_has_id(v: WorkspaceView) -> bool {
    v.2 matches Option::Some(ci) ==> (ci < v.1.len() ==> v.1[ci as int].id is Some)
}

/// The buffer with id `id`: the current one, else the first on screen, else
/// the one kept aside.
pub open spec fn buffer_of(v: WorkspaceView, id: usize) -> Option<BufferHandle> {
    if current_is(v, id) {
        Option::Some(v.1[v.2.unwrap() as int])
    } else if has_id(v.1, id) {
        Option::Some(v.1[first_with_id(v.1, id)])
    } else if v.0.contains_key(id) {
        Option::Some(v.0[id])
    } else {
        Option::None
    }
}

/// The workspace with the buffer that `buffer_of(v, id)` reads replaced by `b`.
pub open spec fn with_buffer(v: WorkspaceView, id: usize, b: BufferHandle) -> WorkspaceView {
    if current_is(v, id) {
        (v.0, v.1.update(v.2.unwrap() as int, b), v.2, v.3)
    } else if has_id(v.1, id) {
        (v.0, v.1.update(first_with_id(v.1, id), b), v.2, v.3)
    } else {
        (v.0.insert(id, b), v.1, v.2, v.3)
    }
}

/// The current buffer is the one with id `id`.
pub open spec fn current_is(v: WorkspaceView, id: usize) -> bool {
    v.2 matches Option::Some(ci) && ci < v.1.len() && v.1[ci as int].id == Option::Some(id)
}

/// The workspace after `select_buffer(id)`, and its result: unless `id` is
/// current already, its buffer is put last on screen and made current, and
/// the buffer that was current leaves the screen.
pub open spec fn selected(v: WorkspaceView, id: usize) -> (WorkspaceView, bool) {
    if current_is(v, id) {
        (v, true)
    } else {
        let v1 = unobserved(v, id);
        if v1.0.contains_key(id) {
            let b = v1.0[id];
            let v2 = (v1.0.remove(id), v1.1, v1.2, v1.3);
            let v3 = match v2.2 {
                Option::Some(ci) => observe_cancelled(v2, v2.1[ci as int].id.unwrap()),
                Option::None => v2,
            };
            ((v3.0, v3.1.push(b), Option::Some(v3.1.len() as usize), v3.3), true)
        } else {
            (v1, false)
        }
    }
}

/// `select_buffer(id)` reads only buffers that are there.
pub open spec fn select_fits(v: WorkspaceView, id: usize) -> bool {
    &&& (v.2 matches Option::Some(ci) ==> ci < v.1.len())
    &&& !current_is(v, id) ==> {
        let v1 = unobserved(v, id);
        v1.0.contains_key(id) ==> (v1.2 matches Option::Some(ci) ==> ci < v1.1.len() && v1.1[ci as int].id is Some)
    }
}

/// Keeps the buffers of an editing session: those on screen, in order, with
/// the current one among them, and those kept aside.
pub struct Workspace {
    /// The syntaxes buffers are shown in.
    pub syntax_set: SyntaxSet,
    buffers: HashMap<usize, BufferHandle>,
    buffers_ino_map: HashMap<u64, usize>,
    current_buffer_index: Option<usize>,
    observation_buffers: Vec<BufferHandle>,
    buffer_ida: usize,
}

impl View for Workspace {
    type V = WorkspaceView;

    closed spec fn view(&self) -> WorkspaceView {
        (self.buffers@, self.observation_buffers@, self.current_buffer_index, self.buffer_ida)
    }
}

impl Workspace {
    /// The syntaxes buffers are shown in.
    pub closed spec fn spec_syntax_set(&self) -> SyntaxSet {
        self.syntax_set
    }

    /// The id of the buffer added for each inode number met.
    pub closed spec fn spec_inos(&self) -> Map<u64, usize> {
        self.buffers_ino_map@
    }

    /// An empty workspace whose buffers are shown in the syntaxes of `syntax_set`.
    pub fn new(syntax_set: SyntaxSet) -> (w: Workspace)
        ensures
            w@ == (Map::<usize, BufferHandle>::empty(), Seq::<BufferHandle>::empty(), Option::<usize>::None, 0usize),
            w.spec_inos() == Map::<u64, usize>::empty(),
            w.spec_syntax_set() == syntax_set,
    {
        Workspace {
            syntax_set,
            buffers: HashMap::new(),
            buffers_ino_map: HashMap::new(),
            current_buffer_index: Option::None,
            observation_buffers: Vec::new(),
            buffer_ida: 0,
        }
    }

    /// Gives `buffer` the next id, notes the id under the buffer's inode
    /// number if it has one, chooses the syntax it is shown in (see
    /// `syntax_name`), and keeps it aside; returns the id.
    pub fn add_buffer(&mut self, buffer: BufferHandle) -> (id: usize)
        requires
            old(self)@.3 < usize::MAX,
            has_syntax_named(syntax_table(old(self).spec_syntax_set()), "Plain Text"@),
        ensures
            final(self).spec_syntax_set() == old(self).spec_syntax_set(),
            id == old(self)@.3 + 1,
            final(self)@ == (
                old(self)@.0.insert(
                    id,
                    BufferHandle { id: Option::Some(id), syntax_definition: final(self)@.0[id].syntax_definition, ..buffer },
                ),
                old(self)@.1,
                old(self)@.2,
                id,
            ),
            final(self)@.0[id].syntax_definition matches Option::Some(name) && name@ == syntax_name(
                syntax_table(old(self).spec_syntax_set()),
                path_view(buffer.absolute_path),
            ),
            final(self).spec_inos() == match buffer.ino {
                Option::Some(ino) => old(self).spec_inos().insert(ino, id),
                Option::None => old(self).spec_inos(),
            },
    {
        let mut buffer = buffer;
        let id = self.alloc_buffer_id();
        buffer.id = Option::Some(id);
        if let Option::Some(ino) = buffer.ino {
            self.buffers_ino_map.insert(ino, id);
        }
        let syntax = syntax_for(&self.syntax_set, buffer.absolute_path.as_ref());
        buffer.syntax_definition = Option::Some(syntax);
        self.buffers.insert(id, buffer);
        id
    }

    fn alloc_buffer_id(&mut self) -> (id: usize)
        requires
            old(self)@.3 < usize::MAX,
        ensures
            final(self).spec_syntax_set() == old(self).spec_syntax_set(),
            id == old(self)@.3 + 1,
            final(self)@ == (old(self)@.0, old(self)@.1, old(self)@.2, id),
            final(self).spec_inos() == old(self).spec_inos(),
    {
        self.buffer_ida += 1;
        self.buffer_ida
    }

    /// Index of the first buffer on screen with id `id`, if any.
    fn position_of(&self, id: usize) -> (r: Option<usize>)
        ensures
            match r {
                Option::Some(i) => is_first_with_id(self@.1, i as int, id),
                Option::None => !has_id(self@.1, id),
            },
    {
        let mut i: usize = 0;
        while i < self.observation_buffers.len()
            invariant
                i <= self.observation_buffers@.len(),
                forall|j: int| 0 <= j < i ==> self.observation_buffers@[j].id != Option::Some(id),
            decreases self.observation_buffers@.len() - i,
        {
            if self.observation_buffers[i].id == Option::Some(id) {
                return Option::Some(i);
            }
            i += 1;
        }
        Option::None
    }

    /// The buffer with id `id`: the current one, else the first on screen,
    /// else the one kept aside.
    pub fn get_buffer(&self, id: usize) -> (r: Option<&BufferHandle>)
        requires
            current_has_id(self@),
        ensures
            match r {
                Option::Some(b) => buffer_of(self@, id) == Option::Some(*b),
                Option::None => buffer_of(self@, id) is None,
            },
    {
        if let Option::Some(buffer) = self.current_buffer() {
            if buffer.id.unwrap() == id {
                return Option::Some(buffer);
            }
        }
        if let Option::Some(i) = self.position_of(id) {
            proof {
                lemma_first_with_id_unique(self@.1, i as int, id);
            }
            return Option::Some(&self.observation_buffers[i]);
        }
        self.buffers.get(&id)
    }

    /// The buffer added for the file with inode number `ino`, if it is still
    /// kept; see `get_buffer`.
    pub fn get_buffer_with_ino(&self, ino: u64) -> (r: Option<&BufferHandle>)
        requires
            current_has_id(self@),
        ensures
            match r {
                Option::Some(b) => self.spec_inos().contains_key(ino)
                    && buffer_of(self@, self.spec_inos()[ino]) == Option::Some(*b),
                Option::None => !self.spec_inos().contains_key(ino)
                    || buffer_of(self@, self.spec_inos()[ino]) is None,
            },
    {
        match self.buffers_ino_map.get(&ino) {
            Option::Some(id) => self.get_buffer(*id),
            Option::None => Option::None,
        }
    }

    /// The current buffer, if the current index is set and in range.
    pub fn current_buffer(&self) -> (r: Option<&BufferHandle>)
        ensures
            match r {
                Option::Some(b) => self@.2 matches Option::Some(ci) && ci < self@.1.len() && *b == self@.1[ci as int],
                Option::None => !(self@.2 matches Option::Some(ci) && ci < self@.1.len()),
            },
    {
        match self.current_buffer_index {
            Option::Some(index) => if index < self.observation_buffers.len() {
                Option::Some(&self.observation_buffers[index])
            } else {
                Option::None
            },
            Option::None => Option::None,
        }
    }

    /// The buffer with id `id`, to be changed in place: the current one, else
    /// the first on screen, else the one kept aside.
    pub fn get_buffer_mut(&mut self, id: usize) -> (r: Option<&mut BufferHandle>)
        ensures
            final(self).spec_syntax_set() == old(self).spec_syntax_set(),
            match r {
                Option::Some(b) => {
                    &&& buffer_of(old(self)@, id) == Option::Some(*b)
                    &&& final(self)@ == with_buffer(old(self)@, id, *final(b))
                    &&& final(self).spec_inos() == old(self).spec_inos()
                },
                Option::None => buffer_of(old(self)@, id) is None && *final(self) == *old(self),
            },
    {
        let current = match self.current_buffer_index {
            Option::Some(index) => index < self.observation_buffers.len() && self.observation_buffers[index].id
                == Option::Some(id),
            Option::None => false,
        };
        if current {
            let index = self.current_buffer_index.unwrap();
            return Option::Some(&mut self.observation_buffers[index]);
        }
        if let Option::Some(index) = self.position_of(id) {
            proof {
                lemma_first_with_id_unique(self@.1, index as int, id);
            }
            return Option::Some(&mut self.observation_buffers[index]);
        }
        if !self.buffers.contains_key(&id) {
            return Option::None;
        }
        match self.buffers.entry(id) {
            Entry::Occupied(entry) => Option::Some(entry.into_mut()),
            Entry::Vacant(_) => {
                proof {
                    assert(false);
                }
                Option::None
            },
        }
    }

    /// The index on screen of the current buffer, if one is set.
    pub fn current_index(&self) -> (r: Option<usize>)
        ensures
            r == self@.2,
    {
        self.current_buffer_index
    }

    /// The current buffer, to be changed in place, if the current index is
    /// set and in range.
    pub fn current_buffer_mut(&mut self) -> (r: Option<&mut BufferHandle>)
        ensures
            final(self).spec_syntax_set() == old(self).spec_syntax_set(),
            match r {
                Option::Some(b) => {
                    let ci = old(self)@.2.unwrap() as int;
                    &&& old(self)@.2 matches Option::Some(i) && i < old(self)@.1.len()
                    &&& *b == old(self)@.1[ci]
                    &&& final(self)@ == (old(self)@.0, old(self)@.1.update(ci, *final(b)), old(self)@.2, old(self)@.3)
                    &&& final(self).spec_inos() == old(self).spec_inos()
                },
                Option::None => {
                    &&& !(old(self)@.2 matches Option::Some(i) && i < old(self)@.1.len())
                    &&& *final(self) == *old(self)
                },
            },
    {
        match self.current_buffer_index {
            Option::Some(index) => if index < self.observation_buffers.len() {
                Option::Some(&mut self.observation_buffers[index])
            } else {
                Option::None
            },
            Option::None => Option::None,
        }
    }

    /// The buffers on screen, in order, one after the other.
    pub fn get_observation_buffers_iter(&self) -> (r: std::slice::Iter<'_, BufferHandle>)
        ensures
            r.remaining() == self@.1.as_ref(),
    {
        self.observation_buffers.as_slice().iter()
    }

    /// The buffers on screen, in order.
    pub fn get_observation_buffers(&self) -> (r: &Vec<BufferHandle>)
        ensures
            r@ == self@.1,
    {
        &self.observation_buffers
    }

    /// Puts the buffer `buffer_id` kept aside last on screen.
    pub fn observe_buffer(&mut self, buffer_id: usize)
        ensures
            final(self).spec_syntax_set() == old(self).spec_syntax_set(),
            final(self)@ == observed(old(self)@, buffer_id),
            final(self).spec_inos() == old(self).spec_inos(),
    {
        if let Option::Some(buffer) = self.buffers.remove(&buffer_id) {
            self.observation_buffers.push(buffer);
        }
    }

    /// Takes the buffer `buffer_id` off the screen; see `observe_cancelled`.
    pub fn cancel_observe_buffer(&mut self, buffer_id: usize)
        ensures
            final(self).spec_syntax_set() == old(self).spec_syntax_set(),
            final(self)@ == observe_cancelled(old(self)@, buffer_id),
            final(self).spec_inos() == old(self).spec_inos(),
    {
        if let Option::Some(buffer_index) = self.position_of(buffer_id) {
            proof {
                lemma_first_with_id_unique(self@.1, buffer_index as int, buffer_id);
            }
            let buffer = self.observation_buffers.remove(buffer_index);
            self.buffers.insert(buffer_id, buffer);
        }
        if Option::Some(buffer_id) == self.current_buffer_index {
            if self.observation_buffers.len() == 0 {
                self.current_buffer_index = Option::None;
            } else {
                self.current_buffer_index = Option::Some(buffer_id % self.observation_buffers.len());
            }
        }
    }

    /// Makes the buffer `id` current; see `selected`.
    pub fn select_buffer(&mut self, id: usize) -> (r: bool)
        requires
            select_fits(old(self)@, id),
        ensures
            final(self).spec_syntax_set() == old(self).spec_syntax_set(),
            (final(self)@, r) == selected(old(self)@, id),
            final(self).spec_inos() == old(self).spec_inos(),
    {
        if let Option::Some(index) = self.current_buffer_index {
            if self.observation_buffers[index].id == Option::Some(id) {
                return true;
            }
        }
        if let Option::Some(index) = self.position_of(id) {
            proof {
                lemma_first_with_id_unique(self@.1, index as int, id);
            }
            let buffer = self.observation_buffers.remove(index);
            self.buffers.insert(id, buffer);
        }
        if let Option::Some(buffer) = self.buffers.remove(&id) {
            if let Option::Some(current_index) = self.current_buffer_index {
                let current_id = self.observation_buffers[current_index].id.unwrap();
                self.cancel_observe_buffer(current_id);
            }
            self.observation_buffers.push(buffer);
            self.current_buffer_index = Option::Some(self.observation_buffers.len() - 1);
            return true;
        }
        false
    }

    /// Moves the current index forward round the screen to the next buffer
    /// that shows a file (see `is_next_with_path`), then selects the region
    /// that buffer is shown in.
    pub fn change_to_next_observation_buffer(&mut self, monitor: &mut Monitor) -> (r: Result<(), MonitorError>)
        requires
            old(self)@.2 matches Option::Some(ci) && ci < usize::MAX,
            old(self)@.1.len() > 0,
            exists|j: int| 0 <= j < old(self)@.1.len() && (#[trigger] old(self)@.1[j]).absolute_path is Some,
            forall|t: int| #[trigger] is_next_with_path(
                old(self)@.1,
                ((old(self)@.2.unwrap() + 1) as int) % (old(self)@.1.len() as int),
                t,
            ) ==> (old(self)@.1[t].id matches Option::Some(id) ==> (old(monitor).spec_controllers().contains_key(id)
                ==> old(monitor).spec_leaves().contains(old(monitor).spec_controllers()[id].spec_region()))),
        ensures
            final(self).spec_syntax_set() == old(self).spec_syntax_set(),
            final(monitor).spec_root() == old(monitor).spec_root(),
            final(monitor).spec_caches() == old(monitor).spec_caches(),
            final(monitor).spec_controllers() == old(monitor).spec_controllers(),
            final(monitor).spec_leaves() == old(monitor).spec_leaves(),
            final(monitor).spec_next_id() == old(monitor).spec_next_id(),
            ({
                let s = old(self)@.1;
                let start = ((old(self)@.2.unwrap() + 1) as int) % (s.len() as int);
                &&& final(self)@.0 == old(self)@.0
                &&& final(self)@.1 == s
                &&& final(self)@.3 == old(self)@.3
                &&& final(self).spec_inos() == old(self).spec_inos()
                &&& final(self)@.2 matches Option::Some(t) && is_next_with_path(s, start, t as int)
                &&& match s[final(self)@.2.unwrap() as int].id {
                    Option::None => r == Result::<(), MonitorError>::Err(MonitorError::BufferWithoutId)
                        && final(monitor).spec_selected() == old(monitor).spec_selected(),
                    Option::Some(id) => if old(monitor).spec_controllers().contains_key(id) {
                        r is Ok && is_first_index(
                            final(monitor).spec_leaves(),
                            final(monitor).spec_selected() as int,
                            old(monitor).spec_controllers()[id].spec_region(),
                        )
                    } else {
                        r == Result::<(), MonitorError>::Err(MonitorError::MissingBuffer)
                            && final(monitor).spec_selected() == old(monitor).spec_selected()
                    },
                }
            }),
    {
        let len = self.observation_buffers.len();
        let ghost s = self@.1;
        let ghost j = choose|j: int| 0 <= j < s.len() && (#[trigger] s[j]).absolute_path is Some;
        let first = self.current_buffer_index.unwrap();
        let mut cur = (first + 1) % len;
        let ghost start = cur as int;
        self.current_buffer_index = Option::Some(cur);
        loop
            invariant
                self@.1 == s,
                self@.0 == old(self)@.0,
                self@.3 == old(self)@.3,
                self.spec_inos() == old(self).spec_inos(),
                self.spec_syntax_set() == old(self).spec_syntax_set(),
                len == s.len(),
                0 <= j < len,
                s[j].absolute_path is Some,
                0 <= start < len,
                0 <= cur < len,
                self@.2 == Option::Some(cur),
                cyclic_distance(start, cur as int, len as int) <= cyclic_distance(start, j, len as int),
                forall|x: int| 0 <= x < len && cyclic_distance(start, x, len as int) < cyclic_distance(start, cur as int, len as int)
                    ==> (#[trigger] s[x]).absolute_path is None,
            ensures
                s[cur as int].absolute_path is Some,
            decreases cyclic_distance(start, j, len as int) - cyclic_distance(start, cur as int, len as int),
        {
            if self.observation_buffers[cur].absolute_path.is_some() {
                break;
            }
            let next = if cur + 1 == len { 0 } else { cur + 1 };
            proof {
                assert(cur != j);
                assert(next == (cur + 1) % (len as int)) by (nonlinear_arith)
                    requires
                        0 <= cur < len,
                        next == (if cur + 1 == len { 0 } else { cur + 1 }),
                {
                }
                assert(cyclic_distance(start, next as int, len as int) == cyclic_distance(start, cur as int, len as int) + 1);
            }
            cur = next;
            self.current_buffer_index = Option::Some(cur);
        }
        let id = match self.observation_buffers[cur].id {
            Option::Some(id) => id,
            Option::None => return Result::Err(MonitorError::BufferWithoutId),
        };
        monitor.update_selected_region(id)
    }

    /// Makes the buffer `id` current when it is on screen, and selects its
    /// region; tells whether it was on screen.
    pub fn change_to_target_observation_buffer(&mut self, id: usize, monitor: &mut Monitor) -> (r: Result<bool, MonitorError>)
        requires
            has_id(old(self)@.1, id) && old(monitor).spec_controllers().contains_key(id) ==> old(monitor).spec_leaves().contains(
                old(monitor).spec_controllers()[id].spec_region(),
            ),
        ensures
            final(self).spec_syntax_set() == old(self).spec_syntax_set(),
            final(monitor).spec_root() == old(monitor).spec_root(),
            final(monitor).spec_caches() == old(monitor).spec_caches(),
            final(monitor).spec_controllers() == old(monitor).spec_controllers(),
            final(monitor).spec_leaves() == old(monitor).spec_leaves(),
            final(monitor).spec_next_id() == old(monitor).spec_next_id(),
            final(self).spec_inos() == old(self).spec_inos(),
            if has_id(old(self)@.1, id) {
                &&& final(self)@ == (old(self)@.0, old(self)@.1, Option::Some(first_with_id(old(self)@.1, id) as usize), old(self)@.3)
                &&& if old(monitor).spec_controllers().contains_key(id) {
                    r == Result::<bool, MonitorError>::Ok(true) && is_first_index(
                        final(monitor).spec_leaves(),
                        final(monitor).spec_selected() as int,
                        old(monitor).spec_controllers()[id].spec_region(),
                    )
                } else {
                    r == Result::<bool, MonitorError>::Err(MonitorError::MissingBuffer)
                        && final(monitor).spec_selected() == old(monitor).spec_selected()
                }
            } else {
                &&& r == Result::<bool, MonitorError>::Ok(false)
                &&& final(self)@ == old(self)@
                &&& final(monitor).spec_selected() == old(monitor).spec_selected()
            },
    {
        if let Option::Some(index) = self.position_of(id) {
            proof {
                lemma_first_with_id_unique(self@.1, index as int, id);
            }
            self.current_buffer_index = Option::Some(index);
            match monitor.update_selected_region(id) {
                Result::Ok(()) => {},
                Result::Err(e) => return Result::Err(e),
            }
            Result::Ok(true)
        } else {
            Result::Ok(false)
        }
    }
}

/// The indices, in order, among the first `n` path arguments of those that
/// name files to open: not a directory, and not the first argument when the
/// workspace moved into it.
pub open spec fn files_among(is_dir: Seq<bool>, first_became_workspace: bool, n: nat) -> Seq<usize>
    decreases n,
{
    if n == 0 {
        seq![]
    } else {
        let p = files_among(is_dir, first_became_workspace, (n - 1) as nat);
        if is_dir[n - 1] || (n == 1 && first_became_workspace) {
            p
        } else {
            p.push((n - 1) as usize)
        }
    }
}

/// The buffer opened as the `id`-th file: its handle, given that id and the
/// syntax `syntaxes[id - 1]`.
pub open spec fn opened(files: Seq<(BufferHandle, Position)>, syntaxes: Seq<String>, id: usize) -> BufferHandle {
    BufferHandle { id: Option::Some(id), syntax_definition: Option::Some(syntaxes[id - 1]), ..files[id - 1].0 }
}

/// `syntaxes` name, for each of the first `k` files, the syntax it is shown in.
pub open spec fn syntaxes_chosen(
    table: Seq<(Seq<char>, Seq<Seq<char>>)>,
    files: Seq<(BufferHandle, Position)>,
    syntaxes: Seq<String>,
    k: nat,
) -> bool {
    &&& syntaxes.len() == k
    &&& forall|j: int| 0 <= j < k ==> (#[trigger] syntaxes[j])@ == syntax_name(table, path_view(files[j].0.absolute_path))
}

/// The workspace after opening the first `k` files in turn: the last one on
/// screen and current, the others kept aside under their ids.
pub open spec fn opened_view(files: Seq<(BufferHandle, Position)>, syntaxes: Seq<String>, k: nat) -> WorkspaceView {
    if k == 0 {
        (Map::<usize, BufferHandle>::empty(), Seq::<BufferHandle>::empty(), Option::<usize>::None, 0usize)
    } else {
        (
            Map::new(|id: usize| 1 <= id < k, |id: usize| opened(files, syntaxes, id)),
            seq![opened(files, syntaxes, k as usize)],
            Option::Some(0usize),
            k as usize,
        )
    }
}

/// The inode numbers noted while opening the first `k` files: each file's
/// under its id, a later file's winning over an earlier one's.
pub open spec fn opened_inos(files: Seq<(BufferHandle, Position)>, k: nat) -> Map<u64, usize>
    decreases k,
{
    if k == 0 {
        Map::empty()
    } else {
        let m = opened_inos(files, (k - 1) as nat);
        match files[k - 1].0.ino {
            Option::Some(ino) => m.insert(ino, k as usize),
            Option::None => m,
        }
    }
}

/// The render caches that opening the first `k` files adds: an empty one for
/// each file's buffer.
pub open spec fn opened_caches(k: nat) -> Map<usize, Map<usize, RenderState>> {
    Map::new(|id: usize| 1 <= id <= k, |id: usize| Map::<usize, RenderState>::empty())
}

/// The region controllers that opening the first `k` files adds: each file's
/// buffer in the region `root`, scrolled to its cursor line.
pub open spec fn opened_controllers(files: Seq<(BufferHandle, Position)>, root: u16, k: nat) -> Map<usize, RegionController> {
    Map::new(|id: usize| 1 <= id <= k, |id: usize| RegionController::at(root, files[id - 1].1.line))
}

impl Workspace {
    /// Which path arguments name files to open; see `files_among`. `is_dir`
    /// tells, for each path argument (the program's name left out), whether
    /// it names a directory once the workspace directory is entered.
    pub fn files_to_open(is_dir: &Vec<bool>, first_became_workspace: bool) -> (r: Vec<usize>)
        ensures
            r@ == files_among(is_dir@, first_became_workspace, is_dir@.len()),
    {
        let mut r: Vec<usize> = Vec::new();
        let mut i: usize = 0;
        while i < is_dir.len()
            invariant
                i <= is_dir@.len(),
                r@ == files_among(is_dir@, first_became_workspace, i as nat),
            decreases is_dir@.len() - i,
        {
            if !(is_dir[i] || (i == 0 && first_became_workspace)) {
                r.push(i);
            }
            i += 1;
        }
        r
    }

    /// A workspace with `files` opened in turn: each is added, made current
    /// and shown in the root region at its cursor line.
    pub fn create_workspace(monitor: &mut Monitor, syntax_set: SyntaxSet, files: Vec<(BufferHandle, Position)>) -> (w: Workspace)
        requires
            files@.len() < usize::MAX,
            has_syntax_named(syntax_table(syntax_set), "Plain Text"@),
        ensures
            w.spec_syntax_set() == syntax_set,
            exists|syntaxes: Seq<String>| syntaxes_chosen(syntax_table(syntax_set), files@, syntaxes, files@.len())
                && w@ == opened_view(files@, syntaxes, files@.len()),
            w.spec_inos() == opened_inos(files@, files@.len()),
            final(monitor).spec_root() == old(monitor).spec_root(),
            final(monitor).spec_caches() == old(monitor).spec_caches().union_prefer_right(opened_caches(files@.len())),
            final(monitor).spec_next_id() == old(monitor).spec_next_id(),
            final(monitor).spec_selected() == old(monitor).spec_selected(),
            final(monitor).spec_leaves() == old(monitor).spec_leaves(),
            final(monitor).spec_controllers() == old(monitor).spec_controllers().union_prefer_right(
                opened_controllers(files@, old(monitor).spec_root().spec_id(), files@.len()),
            ),
    {
        let ghost all = files@;
        let ghost table = syntax_table(syntax_set);
        let ghost mut syntaxes: Seq<String> = Seq::empty();
        let mut workspace = Workspace::new(syntax_set);
        let mut rest = files;
        let mut k: usize = 0;
        proof {
            assert(workspace@ == opened_view(all, syntaxes, 0));
            assert(old(monitor).spec_controllers().union_prefer_right(
                opened_controllers(all, old(monitor).spec_root().spec_id(), 0),
            ) =~= old(monitor).spec_controllers());
            assert(old(monitor).spec_caches().union_prefer_right(opened_caches(0)) =~= old(monitor).spec_caches());
        }
        while rest.len() > 0
            invariant
                all.len() < usize::MAX,
                k + rest@.len() == all.len(),
                rest@ == all.skip(k as int),
                workspace.spec_syntax_set() == syntax_set,
                table == syntax_table(syntax_set),
                has_syntax_named(table, "Plain Text"@),
                syntaxes_chosen(table, all, syntaxes, k as nat),
                workspace@ == opened_view(all, syntaxes, k as nat),
                workspace.spec_inos() == opened_inos(all, k as nat),
                monitor.spec_root() == old(monitor).spec_root(),
                monitor.spec_caches() == old(monitor).spec_caches().union_prefer_right(opened_caches(k as nat)),
                monitor.spec_next_id() == old(monitor).spec_next_id(),
                monitor.spec_selected() == old(monitor).spec_selected(),
                monitor.spec_leaves() == old(monitor).spec_leaves(),
                monitor.spec_controllers() == old(monitor).spec_controllers().union_prefer_right(
                    opened_controllers(all, old(monitor).spec_root().spec_id(), k as nat),
                ),
            decreases rest@.len(),
        {
            let ghost v = workspace@;
            let (handle, cursor) = rest.remove(0);
            proof {
                assert(all[k as int] == (handle, cursor));
                assert(rest@ =~= all.skip(k + 1));
            }
            let id = workspace.add_buffer(handle);
            proof {
                let v1 = workspace@;
                let chosen = v1.0[id].syntax_definition.unwrap();
                let syntaxes2 = syntaxes.push(chosen);
                assert forall|j: int| 1 <= j <= k implies #[trigger] opened(all, syntaxes2, j as usize) == opened(
                    all,
                    syntaxes,
                    j as usize,
                ) by {
                    assert(syntaxes2[j - 1] == syntaxes[j - 1]);
                }
                assert(opened(all, syntaxes2, id) == v1.0[id]);
                assert(v == opened_view(all, syntaxes2, k as nat)) by {
                    if k > 0 {
                        assert(v.0 =~= Map::new(|j: usize| 1 <= j < k, |j: usize| opened(all, syntaxes2, j)));
                    }
                }
                syntaxes = syntaxes2;
                assert(syntaxes_chosen(table, all, syntaxes, (k + 1) as nat));
                assert(id == k + 1);
                if k > 0 {
                    assert(v1.1[0].id == Option::Some(k));
                    assert(!has_id(v1.1, id));
                } else {
                    assert(!has_id(v1.1, id));
                }
                assert(unobserved(v1, id) == v1);
                assert(!current_is(v1, id));
                assert(select_fits(v1, id));
            }
            let ghost before = workspace@;
            workspace.select_buffer(id);
            proof {
                let b = opened(all, syntaxes, id);
                assert(before.0[id] == b);
                if k > 0 {
                    let v2 = (before.0.remove(id), before.1, before.2, before.3);
                    assert(is_first_with_id(v2.1, 0, k));
                    lemma_first_with_id_unique(v2.1, 0, k);
                    assert(v2.1.remove(0) =~= Seq::<BufferHandle>::empty());
                    assert(before.0.remove(id).insert(k, v2.1[0]) =~= Map::new(
                        |j: usize| 1 <= j < k + 1,
                        |j: usize| opened(all, syntaxes, j),
                    ));
                } else {
                    assert(before.0.remove(id) =~= Map::new(|j: usize| 1 <= j < 1, |j: usize| opened(all, syntaxes, j)));
                }
                assert(workspace@ == opened_view(all, syntaxes, (k + 1) as nat));
            }
            let state = BufferState { id: Option::Some(id), cursor, data: String::new(), line_number_width: 0 };
            let bound = monitor.init_buffer(&state, Option::None);
            proof {
                assert(bound is Ok);
                assert(monitor.spec_controllers() =~= old(monitor).spec_controllers().union_prefer_right(
                    opened_controllers(all, old(monitor).spec_root().spec_id(), (k + 1) as nat),
                ));
                assert(monitor.spec_caches() =~= old(monitor).spec_caches().union_prefer_right(
                    opened_caches((k + 1) as nat),
                ));
            }
            k += 1;
        }
        proof {
            assert(syntaxes_chosen(syntax_table(syntax_set), all, syntaxes, all.len()));
        }
        workspace
    }
}

/// Steps from index `a` to index `b` going forward round a screen of `len` buffers.
pub open spec fn cyclic_distance(a: int, b: int, len: int) -> int {
    if a <= b { b - a } else { len - a + b }
}

/// `t` is the first buffer with a path met going forward round the screen
/// from index `start` on (`start` included).
pub open spec fn is_next_with_path(s: Seq<BufferHandle>, start: int, t: int) -> bool {
    &&& 0 <= t < s.len()
    &&& s[t].absolute_path is Some
    &&& forall|x: int| 0 <= x < s.len() && cyclic_distance(start, x, s.len() as int) < cyclic_distance(start, t, s.len() as int)
        ==> (#[trigger] s[x]).absolute_path is None
}

/// The first index with an id is unique.
pub proof fn lemma_first_with_id_unique(s: Seq<BufferHandle>, i: int, id: usize)
    requires
        is_first_with_id(s, i, id),
    ensures
        has_id(s, id),
        first_with_id(s, id) == i,
{
    assert(is_first_with_id(s, i, id));
    let k = first_with_id(s, id);
    assert(is_first_with_id(s, k, id));
    if k < i {
        assert(s[k].id != Option::Some(id));
    } else if k > i {
        assert(s[i].id != Option::Some(id));
    }
}

/// Every buffer kept aside is filed under its own id.
pub open spec fn aside_by_id(v: WorkspaceView) -> bool {
    forall|k: usize| #[trigger] v.0.contains_key(k) ==> v.0[k].id == Option::Some(k)
}

/// Taking a buffer off the screen keeps every buffer aside filed under its id.
pub proof fn lemma_cancel_keeps_filing(v: WorkspaceView, id: usize)
    requires
        aside_by_id(v),
    ensures
        aside_by_id(observe_cancelled(v, id)),
        aside_by_id(unobserved(v, id)),
{
    if has_id(v.1, id) {
        let i = first_with_id(v.1, id);
        let w = choose|w: int| 0 <= w < v.1.len() && v.1[w].id == Option::Some(id);
        assert(exists|x: int| is_first_with_id(v.1, x, id)) by {
            lemma_first_index_exists(v.1, w, id);
        }
    }
}

/// Where some buffer has an id, a first one has it.
pub proof fn lemma_first_index_exists(s: Seq<BufferHandle>, w: int, id: usize)
    requires
        0 <= w < s.len(),
        s[w].id == Option::Some(id),
    ensures
        exists|x: int| is_first_with_id(s, x, id),
    decreases w,
{
    if exists|x: int| 0 <= x < w && s[x].id == Option::Some(id) {
        let x = choose|x: int| 0 <= x < w && s[x].id == Option::Some(id);
        lemma_first_index_exists(s, x, id);
    } else {
        assert(is_first_with_id(s, w, id));
    }
}

/// `select_buffer` keeps every buffer aside filed under its id, and when it
/// succeeds the buffer asked for is the current one.
pub proof fn lemma_select_makes_current(v: WorkspaceView, id: usize)
    requires
        aside_by_id(v),
        select_fits(v, id),
        v.1.len() < usize::MAX,
    ensures
        aside_by_id(selected(v, id).0),
        selected(v, id).1 ==> current_is(selected(v, id).0, id),
{
    if !current_is(v, id) {
        lemma_cancel_keeps_filing(v, id);
        let v1 = unobserved(v, id);
        if v1.0.contains_key(id) {
            let b = v1.0[id];
            assert(b.id == Option::Some(id));
            let v2 = (v1.0.remove(id), v1.1, v1.2, v1.3);
            assert(aside_by_id(v2));
            let v3 = match v2.2 {
                Option::Some(ci) => observe_cancelled(v2, v2.1[ci as int].id.unwrap()),
                Option::None => v2,
            };
            match v2.2 {
                Option::Some(ci) => {
                    lemma_cancel_keeps_filing(v2, v2.1[ci as int].id.unwrap());
                },
                Option::None => {},
            }
            lemma_unobserved_len(v, id);
            match v2.2 {
                Option::Some(ci) => lemma_unobserved_len(v2, v2.1[ci as int].id.unwrap()),
                Option::None => {},
            }
            assert(v1.1.len() <= v.1.len());
            assert(v3.1.len() <= v2.1.len());
            let out = (v3.0, v3.1.push(b), Option::Some(v3.1.len() as usize), v3.3);
            assert(out == selected(v, id).0);
            assert(out.1[v3.1.len() as int] == b);
        }
    }
}

/// Selecting the same buffer twice is selecting it once.
pub proof fn lemma_select_twice(v: WorkspaceView, id: usize)
    requires
        aside_by_id(v),
        select_fits(v, id),
        v.1.len() < usize::MAX,
        selected(v, id).1,
    ensures
        selected(selected(v, id).0, id) == selected(v, id),
{
    lemma_select_makes_current(v, id);
}

/// Taking a buffer off the screen never lengthens the screen.
pub proof fn lemma_unobserved_len(v: WorkspaceView, id: usize)
    ensures
        unobserved(v, id).1.len() <= v.1.len(),
        observe_cancelled(v, id).1.len() <= v.1.len(),
{
    if has_id(v.1, id) {
        let w = choose|w: int| 0 <= w < v.1.len() && v.1[w].id == Option::Some(id);
        lemma_first_index_exists(v.1, w, id);
        let i = first_with_id(v.1, id);
        assert(is_first_with_id(v.1, i, id));
    }
}

/// Every buffer the workspace keeps has an id of its own, given by the
/// workspace: those aside are filed under their id, no id is met twice, and
/// none is above the last id given.
pub open spec fn ids_distinct(v: WorkspaceView) -> bool {
    &&& aside_by_id(v)
    &&& forall|k: usize| #[trigger] v.0.contains_key(k) ==> k <= v.3
    &&& forall|i: int| 0 <= i < v.1.len() ==> {
        &&& (#[trigger] v.1[i]).id is Some
        &&& v.1[i].id.unwrap() <= v.3
        &&& !v.0.contains_key(v.1[i].id.unwrap())
    }
    &&& forall|i: int, j: int| 0 <= i < j < v.1.len() ==> (#[trigger] v.1[i]).id != (#[trigger] v.1[j]).id
}

/// Where a buffer on screen has id `id`, `first_with_id` finds one.
proof fn lemma_found(s: Seq<BufferHandle>, id: usize)
    requires
        has_id(s, id),
    ensures
        is_first_with_id(s, first_with_id(s, id), id),
{
    let w = choose|w: int| 0 <= w < s.len() && s[w].id == Option::Some(id);
    lemma_first_index_exists(s, w, id);
}

/// An empty workspace keeps ids distinct.
pub proof fn lemma_new_ids_distinct()
    ensures
        ids_distinct((Map::<usize, BufferHandle>::empty(), Seq::<BufferHandle>::empty(), Option::<usize>::None, 0usize)),
{
}

/// Adding a buffer keeps ids distinct.
pub proof fn lemma_add_keeps_ids_distinct(v: WorkspaceView, b: BufferHandle)
    requires
        ids_distinct(v),
        v.3 < usize::MAX,
    ensures
        ids_distinct((
            v.0.insert((v.3 + 1) as usize, BufferHandle { id: Option::Some((v.3 + 1) as usize), ..b }),
            v.1,
            v.2,
            (v.3 + 1) as usize,
        )),
{
}

/// Putting a buffer on screen keeps ids distinct.
pub proof fn lemma_observe_keeps_ids_distinct(v: WorkspaceView, id: usize)
    requires
        ids_distinct(v),
    ensures
        ids_distinct(observed(v, id)),
{
    if v.0.contains_key(id) {
        let w = observed(v, id);
        assert forall|i: int, j: int| 0 <= i < j < w.1.len() implies (#[trigger] w.1[i]).id != (#[trigger] w.1[j]).id by {
            if j == v.1.len() {
                assert(v.1[i].id != Option::Some(id));
            } else {
                assert(v.1[i].id != v.1[j].id);
            }
        }
    }
}

/// Taking a buffer off the screen keeps ids distinct.
pub proof fn lemma_cancel_keeps_ids_distinct(v: WorkspaceView, id: usize)
    requires
        ids_distinct(v),
    ensures
        ids_distinct(unobserved(v, id)),
        ids_distinct(observe_cancelled(v, id)),
        !has_id(unobserved(v, id).1, id),
{
    if has_id(v.1, id) {
        lemma_found(v.1, id);
        let i = first_with_id(v.1, id);
        let w = unobserved(v, id);
        assert forall|x: int| 0 <= x < w.1.len() implies {
            &&& (#[trigger] w.1[x]).id is Some
            &&& w.1[x].id.unwrap() <= w.3
            &&& !w.0.contains_key(w.1[x].id.unwrap())
        } by {
            let y = if x < i { x } else { x + 1 };
            assert(w.1[x] == v.1[y]);
            if y < i {
                assert(v.1[y].id != v.1[i].id);
            } else {
                assert(v.1[i].id != v.1[y].id);
            }
        }
        assert forall|x: int, z: int| 0 <= x < z < w.1.len() implies (#[trigger] w.1[x]).id != (#[trigger] w.1[z]).id by {
            let x1 = if x < i { x } else { x + 1 };
            let z1 = if z < i { z } else { z + 1 };
            assert(w.1[x] == v.1[x1]);
            assert(w.1[z] == v.1[z1]);
            assert(v.1[x1].id != v.1[z1].id);
        }
        assert forall|x: int| 0 <= x < w.1.len() implies (#[trigger] w.1[x]).id != Option::Some(id) by {
            let y = if x < i { x } else { x + 1 };
            assert(w.1[x] == v.1[y]);
            if y < i {
                assert(v.1[y].id != v.1[i].id);
            } else {
                assert(v.1[i].id != v.1[y].id);
            }
        }
    }
}

/// `select_buffer` keeps ids distinct.
pub proof fn lemma_select_keeps_ids_distinct(v: WorkspaceView, id: usize)
    requires
        ids_distinct(v),
        select_fits(v, id),
    ensures
        ids_distinct(selected(v, id).0),
{
    if !current_is(v, id) {
        lemma_cancel_keeps_ids_distinct(v, id);
        let v1 = unobserved(v, id);
        if v1.0.contains_key(id) {
            let b = v1.0[id];
            let v2 = (v1.0.remove(id), v1.1, v1.2, v1.3);
            assert(ids_distinct(v2));
            assert(!has_id(v2.1, id));
            let v3 = match v2.2 {
                Option::Some(ci) => observe_cancelled(v2, v2.1[ci as int].id.unwrap()),
                Option::None => v2,
            };
            match v2.2 {
                Option::Some(ci) => {
                    let cid = v2.1[ci as int].id.unwrap();
                    lemma_cancel_keeps_ids_distinct(v2, cid);
                    assert(cid != id);
                    if has_id(v2.1, cid) {
                        lemma_found(v2.1, cid);
                    }
                    assert forall|x: int| 0 <= x < v3.1.len() implies (#[trigger] v3.1[x]).id != Option::Some(id) by {
                        let i = first_with_id(v2.1, cid);
                        let y = if x < i { x } else { x + 1 };
                        assert(v3.1[x] == v2.1[y]);
                    }
                },
                Option::None => {},
            }
            let out = (v3.0, v3.1.push(b), Option::Some(v3.1.len() as usize), v3.3);
            assert(out == selected(v, id).0);
            assert(!v3.0.contains_key(id));
            assert forall|i: int, j: int| 0 <= i < j < out.1.len() implies (#[trigger] out.1[i]).id != (#[trigger] out.1[j]).id by {
                if j == v3.1.len() {
                    assert(v3.1[i].id != Option::Some(id));
                } else {
                    assert(v3.1[i].id != v3.1[j].id);
                }
            }
        }
    }
}

/// Putting a buffer kept aside on screen and then taking it off again gives
/// back the workspace, unless the current index equals the buffer's id (which
/// `cancel_observe_buffer` compares it with).
pub proof fn lemma_observe_then_cancel(v: WorkspaceView, id: usize)
    requires
        ids_distinct(v),
        v.0.contains_key(id),
        v.2 != Option::Some(id),
    ensures
        observe_cancelled(observed(v, id), id) == v,
{
    let w = observed(v, id);
    let i = v.1.len() as int;
    assert(w.1[i].id == Option::Some(id));
    assert forall|j: int| 0 <= j < i implies w.1[j].id != Option::Some(id) by {
        assert(w.1[j] == v.1[j]);
    }
    assert(is_first_with_id(w.1, i, id));
    lemma_first_with_id_unique(w.1, i, id);
    assert(w.1.remove(i) =~= v.1);
    assert(w.0.insert(id, w.1[i]) =~= v.0);
}

/// The buffers the workspace holds, aside or on screen.
pub open spec fn held(v: WorkspaceView) -> Set<BufferHandle> {
    v.0.values() + v.1.to_set()
}

/// Taking a buffer off the screen keeps the buffers held.
proof fn lemma_unobserved_keeps_held(v: WorkspaceView, id: usize)
    requires
        ids_distinct(v),
    ensures
        held(unobserved(v, id)) == held(v),
{
    if has_id(v.1, id) {
        lemma_found(v.1, id);
        let i = first_with_id(v.1, id);
        let w = unobserved(v, id);
        assert(!v.0.contains_key(id));
        assert forall|b: BufferHandle| held(v).contains(b) implies held(w).contains(b) by {
            if v.0.values().contains(b) {
                let k = choose|k: usize| v.0.contains_key(k) && v.0[k] == b;
                assert(w.0.contains_key(k) && w.0[k] == b);
            } else {
                let j = choose|j: int| 0 <= j < v.1.len() && v.1[j] == b;
                if j == i {
                    assert(w.0.contains_key(id) && w.0[id] == b);
                } else if j < i {
                    assert(w.1[j] == b);
                } else {
                    assert(w.1[j - 1] == b);
                }
            }
        }
        assert forall|b: BufferHandle| held(w).contains(b) implies held(v).contains(b) by {
            if w.0.values().contains(b) {
                let k = choose|k: usize| w.0.contains_key(k) && w.0[k] == b;
                if k == id {
                    assert(v.1[i] == b);
                } else {
                    assert(v.0.contains_key(k) && v.0[k] == b);
                }
            } else {
                let j = choose|j: int| 0 <= j < w.1.len() && w.1[j] == b;
                if j < i {
                    assert(v.1[j] == b);
                } else {
                    assert(v.1[j + 1] == b);
                }
            }
        }
        assert(held(w) =~= held(v));
    }
}

/// `select_buffer` keeps the buffers the workspace holds: it only moves them
/// between the screen and the buffers kept aside. With ids distinct (which it
/// keeps, see `lemma_select_keeps_ids_distinct`) each is held once.
pub proof fn lemma_select_keeps_held(v: WorkspaceView, id: usize)
    requires
        ids_distinct(v),
        select_fits(v, id),
    ensures
        held(selected(v, id).0) == held(v),
{
    if !current_is(v, id) {
        lemma_unobserved_keeps_held(v, id);
        lemma_cancel_keeps_ids_distinct(v, id);
        let v1 = unobserved(v, id);
        if v1.0.contains_key(id) {
            let b = v1.0[id];
            let v2 = (v1.0.remove(id), v1.1, v1.2, v1.3);
            assert(ids_distinct(v2));
            let v3 = match v2.2 {
                Option::Some(ci) => observe_cancelled(v2, v2.1[ci as int].id.unwrap()),
                Option::None => v2,
            };
            match v2.2 {
                Option::Some(ci) => {
                    lemma_unobserved_keeps_held(v2, v2.1[ci as int].id.unwrap());
                },
                Option::None => {},
            }
            assert(held(v3) == held(v2));
            let out = (v3.0, v3.1.push(b), Option::Some(v3.1.len() as usize), v3.3);
            assert(out == selected(v, id).0);
            assert forall|x: BufferHandle| held(v1).contains(x) implies held(out).contains(x) by {
                let in_v2 = if v1.0.values().contains(x) {
                    let k = choose|k: usize| v1.0.contains_key(k) && v1.0[k] == x;
                    if k != id {
                        assert(v2.0.contains_key(k) && v2.0[k] == x);
                        assert(v2.0.values().contains(x));
                        true
                    } else {
                        false
                    }
                } else {
                    assert(v1.1.to_set().contains(x));
                    assert(v2.1.to_set().contains(x));
                    true
                };
                if in_v2 {
                    assert(held(v2).contains(x));
                    assert(held(v3).contains(x));
                    if v3.0.values().contains(x) {
                        assert(out.0.values().contains(x));
                    } else {
                        assert(v3.1.to_set().contains(x));
                        assert(v3.1.contains(x));
                        let j = choose|j: int| 0 <= j < v3.1.len() && v3.1[j] == x;
                        assert(out.1[j] == x);
                        assert(out.1.contains(x));
                        assert(out.1.to_set().contains(x));
                    }
                } else {
                    assert(x == b);
                    assert(out.1[v3.1.len() as int] == x);
                    assert(out.1.contains(x));
                    assert(out.1.to_set().contains(x));
                }
            }
            assert forall|x: BufferHandle| held(out).contains(x) implies held(v1).contains(x) by {
                let in_v3 = if out.0.values().contains(x) {
                    assert(v3.0.values().contains(x));
                    true
                } else {
                    assert(out.1.to_set().contains(x));
                    assert(out.1.contains(x));
                    let j = choose|j: int| 0 <= j < out.1.len() && out.1[j] == x;
                    if j < v3.1.len() {
                        assert(v3.1[j] == x);
                        assert(v3.1.contains(x));
                        assert(v3.1.to_set().contains(x));
                        true
                    } else {
                        assert(x == b);
                        assert(v1.0.contains_key(id) && v1.0[id] == x);
                        assert(v1.0.values().contains(x));
                        false
                    }
                };
                if in_v3 {
                    assert(held(v3).contains(x));
                    assert(held(v2).contains(x));
                    if v2.0.values().contains(x) {
                        let k = choose|k: usize| v2.0.contains_key(k) && v2.0[k] == x;
                        assert(v1.0.contains_key(k) && v1.0[k] == x);
                        assert(v1.0.values().contains(x));
                    } else {
                        assert(v2.1.to_set().contains(x));
                        assert(v1.1.to_set().contains(x));
                    }
                }
            }
            assert(held(out) =~= held(v1));
        }
    }
}

/// The ids of the buffers on screen, in order.
pub open spec fn screen_ids(s: Seq<BufferHandle>) -> Seq<Option<usize>> {
    s.map_values(|b: BufferHandle| b.id)
}

/// How many buffers with id `k` the workspace holds: the one kept aside
/// under `k`, if any, and each one on screen with that id.
pub open spec fn held_count(v: WorkspaceView, k: usize) -> nat {
    (if v.0.contains_key(k) { 1nat } else { 0nat }) + screen_ids(v.1).to_multiset().count(Option::Some(k))
}

/// Taking the buffer at `i` off the screen takes one of its id off the
/// screen's ids.
proof fn lemma_screen_ids_remove(s: Seq<BufferHandle>, i: int)
    requires
        0 <= i < s.len(),
    ensures
        forall|x: Option<usize>| #[trigger] screen_ids(s.remove(i)).to_multiset().count(x)
            == screen_ids(s).to_multiset().count(x) - (if x == s[i].id { 1int } else { 0int }),
{
    broadcast use vstd::seq_lib::group_to_multiset_ensures, vstd::multiset::group_multiset_axioms;
    assert(screen_ids(s.remove(i)) =~= screen_ids(s).remove(i));
    assert(screen_ids(s)[i] == s[i].id);
    assert(screen_ids(s).contains(s[i].id));
}

/// Pushing a buffer on screen adds one to the count of its id.
proof fn lemma_screen_ids_push(s: Seq<BufferHandle>, b: BufferHandle)
    ensures
        forall|x: Option<usize>| #[trigger] screen_ids(s.push(b)).to_multiset().count(x)
            == screen_ids(s).to_multiset().count(x) + (if x == b.id { 1int } else { 0int }),
{
    broadcast use vstd::seq_lib::group_to_multiset_ensures, vstd::multiset::group_multiset_axioms;
    assert(screen_ids(s.push(b)) =~= screen_ids(s).push(b.id));
}

/// Taking a buffer off the screen keeps how many buffers of each id are held.
proof fn lemma_unobserved_keeps_counts(v: WorkspaceView, id: usize)
    requires
        ids_distinct(v),
    ensures
        forall|k: usize| #[trigger] held_count(unobserved(v, id), k) == held_count(v, k),
        forall|k: usize| #[trigger] held_count(observe_cancelled(v, id), k) == held_count(v, k),
{
    if has_id(v.1, id) {
        lemma_found(v.1, id);
        let i = first_with_id(v.1, id);
        assert(!v.0.contains_key(id));
        lemma_screen_ids_remove(v.1, i);
        let w = unobserved(v, id);
        assert forall|k: usize| #[trigger] held_count(w, k) == held_count(v, k) by {
            assert(screen_ids(w.1).to_multiset().count(Option::Some(k))
                == screen_ids(v.1).to_multiset().count(Option::Some(k)) - (if Option::Some(k) == v.1[i].id { 1int } else { 0int }));
        }
    }
}

/// `select_buffer` keeps the multiset of buffers the workspace holds, by
/// id: whatever it selects, as many buffers of each id are held after it as
/// before, kept aside or on screen. (With two buffers of one id, one on
/// screen and one aside, the one aside would be overwritten; distinct ids
/// rule that out, and `select_buffer` keeps them distinct.)
pub proof fn lemma_select_keeps_held_counts(v: WorkspaceView, id: usize)
    requires
        ids_distinct(v),
        select_fits(v, id),
    ensures
        forall|k: usize| #[trigger] held_count(selected(v, id).0, k) == held_count(v, k),
{
    if !current_is(v, id) {
        lemma_unobserved_keeps_counts(v, id);
        lemma_cancel_keeps_ids_distinct(v, id);
        lemma_cancel_keeps_filing(v, id);
        let v1 = unobserved(v, id);
        if v1.0.contains_key(id) {
            let b = v1.0[id];
            assert(b.id == Option::Some(id));
            let v2 = (v1.0.remove(id), v1.1, v1.2, v1.3);
            assert(ids_distinct(v2));
            let v3 = match v2.2 {
                Option::Some(ci) => observe_cancelled(v2, v2.1[ci as int].id.unwrap()),
                Option::None => v2,
            };
            match v2.2 {
                Option::Some(ci) => {
                    lemma_unobserved_keeps_counts(v2, v2.1[ci as int].id.unwrap());
                },
                Option::None => {},
            }
            assert(forall|k: usize| #[trigger] held_count(v3, k) == held_count(v2, k));
            let out = (v3.0, v3.1.push(b), Option::Some(v3.1.len() as usize), v3.3);
            assert(out == selected(v, id).0);
            lemma_screen_ids_push(v3.1, b);
            assert forall|k: usize| #[trigger] held_count(out, k) == held_count(v1, k) by {
                assert(held_count(v3, k) == held_count(v2, k));
                assert(screen_ids(out.1).to_multiset().count(Option::Some(k))
                    == screen_ids(v3.1).to_multiset().count(Option::Some(k)) + (if Option::Some(k) == b.id { 1int } else { 0int }));
            }
        }
    }
}

/// When `select_buffer` selects another buffer than the current one, the
/// buffer that was current leaves the screen and is kept aside under its
/// id, where `get_buffer` still finds it. This holds unless the buffer
/// selected was on screen before the current one: taking it off first
/// shifts the current index onto the next buffer, which is then the one
/// set aside.
pub proof fn lemma_select_sets_current_aside(v: WorkspaceView, id: usize)
    requires
        ids_distinct(v),
        select_fits(v, id),
        selected(v, id).1,
        v.2 matches Option::Some(ci) && ci < v.1.len()
            && v.1[ci as int].id != Option::Some(id)
            && (has_id(v.1, id) ==> first_with_id(v.1, id) > ci),
    ensures
        ({
            let ci = v.2.unwrap() as int;
            let c = v.1[ci].id.unwrap();
            let w = selected(v, id).0;
            &&& !has_id(w.1, c)
            &&& w.0.contains_key(c) && w.0[c] == v.1[ci]
            &&& buffer_of(w, c) == Option::Some(v.1[ci])
        }),
{
    let ci = v.2.unwrap() as int;
    let c = v.1[ci].id.unwrap();
    assert(!current_is(v, id));
    lemma_cancel_keeps_ids_distinct(v, id);
    lemma_cancel_keeps_filing(v, id);
    let v1 = unobserved(v, id);
    if has_id(v.1, id) {
        lemma_found(v.1, id);
        assert(v1.1[ci] == v.1[ci]);
    }
    assert(v1.1[ci] == v.1[ci]);
    assert(v1.0.contains_key(id));
    let b = v1.0[id];
    let v2 = (v1.0.remove(id), v1.1, v1.2, v1.3);
    assert(ids_distinct(v2));
    assert(v2.1[ci].id == Option::Some(c));
    assert forall|j: int| 0 <= j < ci implies v2.1[j].id != Option::Some(c) by {
        assert(v2.1[j].id != v2.1[ci].id);
    }
    assert(is_first_with_id(v2.1, ci, c));
    lemma_first_with_id_unique(v2.1, ci, c);
    lemma_cancel_keeps_ids_distinct(v2, c);
    let v3 = observe_cancelled(v2, c);
    assert(!has_id(v3.1, c));
    assert(v3.0 == v2.0.insert(c, v2.1[ci]));
    assert(c != id);
    let out = (v3.0, v3.1.push(b), Option::Some(v3.1.len() as usize), v3.3);
    assert(out == selected(v, id).0);
    assert(b.id == Option::Some(id));
    assert(!has_id(out.1, c)) by {
        if has_id(out.1, c) {
            let j = choose|j: int| 0 <= j < out.1.len() && out.1[j].id == Option::Some(c);
            if j < v3.1.len() {
                assert(v3.1[j] == out.1[j]);
            }
        }
    }
    assert(!current_is(out, c));
}

/// The id `add_buffer` gives was never given before: every buffer held has a
/// lower one.
pub proof fn lemma_add_gives_new_id(v: WorkspaceView)
    requires
        ids_distinct(v),
        v.3 < usize::MAX,
    ensures
        forall|k: usize| #[trigger] v.0.contains_key(k) ==> k < v.3 + 1,
        forall|i: int| 0 <= i < v.1.len() ==> (#[trigger] v.1[i]).id.unwrap() < v.3 + 1,
        !v.0.contains_key((v.3 + 1) as usize),
        !has_id(v.1, (v.3 + 1) as usize),
{
}

} // verus!
