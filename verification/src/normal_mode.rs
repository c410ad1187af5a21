use vstd::prelude::*;
use crate::status_line::StatusLineData;
use crate::style::{CharStyle, Colors};
use crate::workspace::{BufferHandle, Workspace};

verus! {

/// The indices, in order, of the buffers among the first `n` on screen whose
/// id differs from `current` (the current buffer's id, if there is one).
pub open spec fn others_before(s: Seq<BufferHandle>, current: Option<Option<usize>>, n: nat) -> Seq<usize>
    decreases n,
{
    if n == 0 {
        seq![]
    } else {
        let p = others_before(s, current, (n - 1) as nat);
        if current == Option::Some(s[n - 1].id) {
            p
        } else {
            p.push((n - 1) as usize)
        }
    }
}

/// The index of the last buffer among the first `n` on screen whose id is
/// `current`'s.
pub open spec fn last_current_before(s: Seq<BufferHandle>, current: Option<Option<usize>>, n: nat) -> Option<usize>
    decreases n,
{
    if n == 0 {
        Option::None
    } else if current == Option::Some(s[n - 1].id) {
        Option::Some((n - 1) as usize)
    } else {
        last_current_before(s, current, (n - 1) as nat)
    }
}

/// The order in which `render_all` draws the buffers on screen: each as an
/// index on screen and whether the cursor is placed. The current buffer is
/// drawn last, with the cursor; every other one before it, in screen order.
pub open spec fn render_order(s: Seq<BufferHandle>, current: Option<Option<usize>>) -> Seq<(usize, bool)> {
    let others = others_before(s, current, s.len()).map_values(|i: usize| (i, false));
    match last_current_before(s, current, s.len()) {
        Option::Some(i) => others.push((i, true)),
        Option::None => others,
    }
}

/// What `others_before` lists: indices below `n`, rising, of buffers that
/// are not `current`'s, every such index once.
proof fn lemma_others_before(s: Seq<BufferHandle>, current: Option<Option<usize>>, n: nat)
    requires
        n <= s.len(),
        s.len() <= usize::MAX,
    ensures
        forall|t: int| 0 <= t < others_before(s, current, n).len() ==> {
            &&& (#[trigger] others_before(s, current, n)[t]) < n
            &&& current != Option::Some(s[others_before(s, current, n)[t] as int].id)
        },
        forall|t1: int, t2: int| 0 <= t1 < t2 < others_before(s, current, n).len()
            ==> #[trigger] others_before(s, current, n)[t1] < #[trigger] others_before(s, current, n)[t2],
        forall|k: int| 0 <= k < n && current != Option::Some(s[k].id)
            ==> #[trigger] others_before(s, current, n).contains(k as usize),
    decreases n,
{
    if n > 0 {
        lemma_others_before(s, current, (n - 1) as nat);
        let p = others_before(s, current, (n - 1) as nat);
        if current != Option::Some(s[n - 1].id) {
            let q = p.push((n - 1) as usize);
            assert(q[p.len() as int] == (n - 1) as usize);
            assert forall|k: int| 0 <= k < n && current != Option::Some(s[k].id) implies q.contains(k as usize) by {
                if k < n - 1 {
                    assert(p.contains(k as usize));
                    let t = choose|t: int| 0 <= t < p.len() && p[t] == k as usize;
                    assert(q[t] == k as usize);
                } else {
                    assert(q[p.len() as int] == k as usize);
                }
            }
        } else {
            assert forall|k: int| 0 <= k < n && current != Option::Some(s[k].id) implies p.contains(k as usize) by {
                assert(k < n - 1);
            }
        }
    }
}

/// What `last_current_before` finds: the last index below `n` of a buffer
/// that is `current`'s, or none when there is none.
proof fn lemma_last_current_before(s: Seq<BufferHandle>, current: Option<Option<usize>>, n: nat)
    requires
        n <= s.len(),
        s.len() <= usize::MAX,
    ensures
        last_current_before(s, current, n) matches Option::Some(j) ==> {
            &&& j < n
            &&& current == Option::Some(s[j as int].id)
            &&& forall|k: int| j < k < n ==> current != Option::Some(#[trigger] s[k].id)
        },
        last_current_before(s, current, n) is None ==> forall|k: int| 0 <= k < n ==> current != Option::Some(
            #[trigger] s[k].id,
        ),
    decreases n,
{
    if n > 0 {
        lemma_last_current_before(s, current, (n - 1) as nat);
    }
}

/// The normal mode's drawing order. Every buffer on screen that is not the
/// current one is drawn once, without the cursor, in screen order; when the
/// current buffer is on screen it is drawn last, and only there is the
/// cursor placed. With ids distinct, what is drawn last is the buffer at the
/// current index.
pub proof fn lemma_render_order(s: Seq<BufferHandle>, current: Option<Option<usize>>)
    requires
        s.len() <= usize::MAX,
    ensures
        ({
            let r = render_order(s, current);
            let on_screen = exists|k: int| 0 <= k < s.len() && current == Option::Some(#[trigger] s[k].id);
            let n_others: int = if on_screen { r.len() - 1 } else { r.len() as int };
            &&& on_screen ==> r.len() >= 1 && r.last().1 && current == Option::Some(s[r.last().0 as int].id)
                && r.last().0 < s.len()
                && forall|k: int| r.last().0 < k < s.len() ==> current != Option::Some(#[trigger] s[k].id)
            &&& forall|t: int| 0 <= t < n_others ==> {
                &&& !(#[trigger] r[t]).1
                &&& r[t].0 < s.len()
                &&& current != Option::Some(s[r[t].0 as int].id)
            }
            &&& forall|t1: int, t2: int| 0 <= t1 < t2 < n_others ==> (#[trigger] r[t1]).0 < (#[trigger] r[t2]).0
            &&& forall|k: int| 0 <= k < s.len() && current != Option::Some(#[trigger] s[k].id)
                ==> exists|t: int| 0 <= t < n_others && r[t].0 == k
            &&& forall|ci: int| 0 <= ci < s.len() && current == Option::Some(#[trigger] s[ci].id)
                && (forall|k: int| 0 <= k < s.len() && k != ci ==> s[k].id != s[ci].id)
                ==> r.len() >= 1 && r.last() == (ci as usize, true)
        }),
{
    let n = s.len();
    lemma_others_before(s, current, n);
    lemma_last_current_before(s, current, n);
    let o = others_before(s, current, n);
    let others = o.map_values(|i: usize| (i, false));
    let r = render_order(s, current);
    let on_screen = exists|k: int| 0 <= k < s.len() && current == Option::Some(#[trigger] s[k].id);
    let n_others: int = if on_screen { r.len() - 1 } else { r.len() as int };
    assert(n_others == o.len());
    assert forall|t: int| 0 <= t < n_others implies r[t] == (o[t], false) by {}
    assert forall|k: int| 0 <= k < s.len() && current != Option::Some(#[trigger] s[k].id)
        implies exists|t: int| 0 <= t < n_others && r[t].0 == k by {
        assert(o.contains(k as usize));
        let t = choose|t: int| 0 <= t < o.len() && o[t] == k as usize;
        assert(r[t].0 == k);
    }
    assert forall|ci: int| 0 <= ci < s.len() && current == Option::Some(#[trigger] s[ci].id)
        && (forall|k: int| 0 <= k < s.len() && k != ci ==> s[k].id != s[ci].id)
        implies r.len() >= 1 && r.last() == (ci as usize, true) by {
        let j = last_current_before(s, current, n).unwrap() as int;
        if j != ci {
            assert(s[j].id != s[ci].id);
        }
    }
}

/// Draws the buffers of the normal mode.
pub struct NormalRenderer;

impl NormalRenderer {
    /// The drawing order for the buffers on screen; see `render_order`.
    pub fn render_all(workspace: &Workspace) -> (r: Vec<(usize, bool)>)
        ensures
            r@ == render_order(
                workspace@.1,
                if workspace@.2 matches Option::Some(ci) && ci < workspace@.1.len() {
                    Option::Some(workspace@.1[workspace@.2.unwrap() as int].id)
                } else {
                    Option::None
                },
            ),
    {
        let current: Option<Option<usize>> = match workspace.current_buffer() {
            Option::Some(buffer) => Option::Some(buffer.id),
            Option::None => Option::None,
        };
        let buffers = workspace.get_observation_buffers();
        let ghost s = buffers@;
        let mut steps: Vec<(usize, bool)> = Vec::new();
        let mut buffer_opt: Option<usize> = Option::None;
        let mut i: usize = 0;
        while i < buffers.len()
            invariant
                s == buffers@,
                i <= s.len(),
                steps@ == others_before(s, current, i as nat).map_values(|k: usize| (k, false)),
                buffer_opt == last_current_before(s, current, i as nat),
            decreases s.len() - i,
        {
            if current == Option::Some(buffers[i].id) {
                buffer_opt = Option::Some(i);
            } else {
                steps.push((i, false));
                proof {
                    assert(others_before(s, current, (i + 1) as nat) == others_before(s, current, i as nat).push(i));
                    assert(steps@ =~= others_before(s, current, (i + 1) as nat).map_values(|k: usize| (k, false)));
                }
            }
            i += 1;
        }
        if let Option::Some(index) = buffer_opt {
            steps.push((index, true));
        }
        steps
    }

    /// The drawing order when only the current buffer is redrawn: the current
    /// buffer, if there is one, with the cursor placed.
    pub fn render(workspace: &Workspace) -> (r: Vec<(usize, bool)>)
        ensures
            r@ == if workspace@.2 matches Option::Some(ci) && ci < workspace@.1.len() {
                seq![(workspace@.2.unwrap(), true)]
            } else {
                Seq::<(usize, bool)>::empty()
            },
    {
        let mut steps: Vec<(usize, bool)> = Vec::new();
        if let Option::Some(index) = workspace.current_index() {
            if index < workspace.get_observation_buffers().len() {
                steps.push((index, true));
            }
        }
        steps
    }

    /// The status line of the normal mode: the mode's name, then the part
    /// that tells of the current buffer.
    pub fn render_line_status(buffer_status: StatusLineData) -> (r: Vec<StatusLineData>)
        ensures
            r@.len() == 2,
            r@[0].content@ == " NORMAL "@,
            r@[0].color == Colors::Inverted,
            r@[0].style == CharStyle::Bold,
            r@[1] == buffer_status,
    {
        let mode_name_data = StatusLineData {
            content: " NORMAL ".to_string(),
            color: Colors::Inverted,
            style: CharStyle::Bold,
        };
        let mut datas: Vec<StatusLineData> = Vec::new();
        datas.push(mode_name_data);
        datas.push(buffer_status);
        datas
    }
}

} // verus!
