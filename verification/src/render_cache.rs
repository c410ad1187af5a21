use vstd::prelude::*;
use std::collections::HashMap;
use vstd::std_specs::iter::IteratorSpec;

verus! {

broadcast use vstd::std_specs::hash::group_hash_axioms;

/// The renderer's state at the start of a buffer line, kept so that drawing
/// can resume at that line instead of at the top of the buffer. The renderer
/// decides what it holds; the cache keeps it by line without reading it.
#[derive(Debug)]
pub struct RenderState {
    pub data: Vec<u8>,
}

/// The render states kept for one buffer, by line.
pub struct RenderCache {
    states: HashMap<usize, RenderState>,
}

impl View for RenderCache {
    type V = Map<usize, RenderState>;

    closed spec fn view(&self) -> Map<usize, RenderState> {
        self.states@
    }
}

/// The states of the lines before `line`: what stays once the buffer has
/// changed at `line`.
pub open spec fn states_before(states: Map<usize, RenderState>, line: usize) -> Map<usize, RenderState> {
    states.restrict(Set::new(|k: usize| k < line))
}

impl RenderCache {
    /// An empty cache.
    pub fn new() -> (c: RenderCache)
        ensures
            c@ == Map::<usize, RenderState>::empty(),
    {
        RenderCache { states: HashMap::new() }
    }

    /// The state kept for `line`, if any.
    pub fn get(&self, line: usize) -> (r: Option<&RenderState>)
        ensures
            match r {
                Option::Some(s) => self@.contains_key(line) && *s == self@[line],
                Option::None => !self@.contains_key(line),
            },
    {
        self.states.get(&line)
    }

    /// Keeps `state` for `line`, in place of what was kept for it.
    pub fn insert(&mut self, line: usize, state: RenderState)
        ensures
            final(self)@ == old(self)@.insert(line, state),
    {
        self.states.insert(line, state);
    }

    /// Drops the states of `line` and every line after it.
    pub fn retain_before(&mut self, line: usize)
        ensures
            final(self)@ == states_before(old(self)@, line),
    {
        let mut stale: Vec<usize> = Vec::new();
        for k in it: self.states.keys()
            invariant
                it.seq() == vstd::std_specs::hash::spec_keys_iter(&self.states).remaining(),
                forall|j: int| 0 <= j < stale@.len() ==> #[trigger] stale@[j] >= line
                    && self.states@.contains_key(stale@[j]),
                forall|j: int| 0 <= j < it.index() && *it.seq()[j] >= line ==> stale@.contains(*it.seq()[j]),
        {
            let ghost s0 = stale@;
            if *k >= line {
                stale.push(*k);
            }
            proof {
                assert forall|y: usize| s0.contains(y) implies stale@.contains(y) by {
                    let j = choose|j: int| 0 <= j < s0.len() && s0[j] == y;
                    assert(stale@[j] == y);
                }
                if *k >= line {
                    assert(stale@[stale@.len() - 1] == *k);
                }
            }
        }
        proof {
            let keys = vstd::std_specs::hash::spec_keys_iter(&self.states).remaining();
            assert forall|k: usize| #[trigger] self.states@.contains_key(k) && k >= line implies stale@.contains(k) by {
                assert(keys.unref().to_set().contains(k));
                let j = choose|j: int| 0 <= j < keys.unref().len() && keys.unref()[j] == k;
                assert(*keys[j] == k);
            }
        }
        let ghost before = self.states@;
        let mut i: usize = 0;
        while i < stale.len()
            invariant
                i <= stale@.len(),
                forall|j: int| 0 <= j < stale@.len() ==> #[trigger] stale@[j] >= line && before.contains_key(stale@[j]),
                forall|k: usize| #[trigger] before.contains_key(k) && k >= line ==> stale@.contains(k),
                forall|k: usize| #[trigger] self.states@.contains_key(k) == (before.contains_key(k)
                    && !stale@.take(i as int).contains(k)),
                forall|k: usize| #[trigger] self.states@.contains_key(k) ==> self.states@[k] == before[k],
            decreases stale@.len() - i,
        {
            let ghost t0 = stale@.take(i as int);
            self.states.remove(&stale[i]);
            proof {
                let t1 = stale@.take(i + 1);
                assert forall|k: usize| t1.contains(k) == (t0.contains(k) || k == stale@[i as int]) by {
                    if t1.contains(k) {
                        let j = choose|j: int| 0 <= j < t1.len() && t1[j] == k;
                        if j < i {
                            assert(t0[j] == k);
                        }
                    }
                    if t0.contains(k) {
                        let j = choose|j: int| 0 <= j < t0.len() && t0[j] == k;
                        assert(t1[j] == k);
                    }
                    if k == stale@[i as int] {
                        assert(t1[i as int] == k);
                    }
                }
            }
            i += 1;
        }
        proof {
            assert(stale@.take(stale@.len() as int) == stale@);
            assert forall|k: usize| #[trigger] stale@.contains(k) implies k >= line by {
                let j = choose|j: int| 0 <= j < stale@.len() && stale@[j] == k;
            }
            assert(self.states@ =~= states_before(before, line));
        }
    }
}

} // verus!
