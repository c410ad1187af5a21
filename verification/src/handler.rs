use vstd::prelude::*;
use crate::monitor::{BufferState, Monitor, MonitorError};
use crate::workspace::Workspace;

verus! {

/// Scrolls the current buffer, if there is one, so that its cursor comes into view.
pub fn scroll_to_cursor(monitor: &mut Monitor, current: Option<&BufferState>) -> (r: Result<(), MonitorError>)
    requires
        current matches Option::Some(buffer) ==> {
            &&& old(monitor).shows(buffer)
            &&& ({
                let id = buffer.id.unwrap();
                let c = old(monitor).controller_of(id);
                let (h, w) = old(monitor).view_size_of(id);
                c.spec_line_offset() <= buffer.cursor.line ==> {
                    &&& buffer.line_number_width + 1 <= w
                    &&& c.spec_line_offset() < usize::MAX
                    &&& (w == buffer.line_number_width + 1 ==> crate::region_controller::window(
                        crate::text::spec_lines(buffer.data@),
                        c.spec_line_offset() as nat,
                        h as nat,
                    ).len() == 0)
                }
            })
        },
    ensures
        r is Ok,
        current is None ==> *final(monitor) == *old(monitor),
        current matches Option::Some(buffer) ==> {
            let id = buffer.id.unwrap();
            let c = old(monitor).controller_of(id);
            let (h, w) = old(monitor).view_size_of(id);
            &&& final(monitor).spec_root() == old(monitor).spec_root()
            &&& final(monitor).spec_caches() == old(monitor).spec_caches()
            &&& final(monitor).spec_selected() == old(monitor).spec_selected()
            &&& final(monitor).spec_leaves() == old(monitor).spec_leaves()
            &&& final(monitor).spec_controllers() == old(monitor).spec_controllers().insert(
                id,
                crate::region_controller::RegionController::at(
                    c.spec_region(),
                    crate::region_controller::offset_into_monitor(
                        c.spec_line_offset() as nat,
                        h as nat,
                        w as nat,
                        buffer.cursor.line as nat,
                        buffer.data@,
                        buffer.line_number_width as nat,
                    ) as usize,
                ),
            )
        },
{
    if let Option::Some(buffer) = current {
        match monitor.scroll_to_cursor(buffer) {
            Result::Ok(()) => {},
            Result::Err(e) => return Result::Err(e),
        }
    }
    Result::Ok(())
}

/// Scrolls the current buffer, if there is one, so that its cursor is in the
/// middle of its region.
pub fn scroll_to_center(monitor: &mut Monitor, current: Option<&BufferState>) -> (r: Result<(), MonitorError>)
    requires
        current matches Option::Some(buffer) ==> old(monitor).shows(buffer),
    ensures
        r is Ok,
        current is None ==> *final(monitor) == *old(monitor),
        current matches Option::Some(buffer) ==> {
            let id = buffer.id.unwrap();
            &&& final(monitor).spec_root() == old(monitor).spec_root()
            &&& final(monitor).spec_caches() == old(monitor).spec_caches()
            &&& final(monitor).spec_selected() == old(monitor).spec_selected()
            &&& final(monitor).spec_leaves() == old(monitor).spec_leaves()
            &&& final(monitor).spec_controllers() == old(monitor).spec_controllers().insert(
                id,
                crate::region_controller::RegionController::at(
                    old(monitor).controller_of(id).spec_region(),
                    crate::region_controller::centered_offset(
                        old(monitor).view_size_of(id).0 as nat,
                        buffer.cursor.line as nat,
                    ) as usize,
                ),
            )
        },
{
    if let Option::Some(buffer) = current {
        match monitor.scroll_to_center(buffer) {
            Result::Ok(()) => {},
            Result::Err(e) => return Result::Err(e),
        }
    }
    Result::Ok(())
}

/// Grows the selected region by one percent of its father's area.
pub fn zoom_up(monitor: &mut Monitor) -> (r: Result<(), MonitorError>)
    requires
        old(monitor).zoom_fits(1, true),
    ensures
        r is Ok,
        final(monitor).spec_root() == old(monitor).zoomed_root(1, true),
        final(monitor).spec_caches() == old(monitor).spec_caches(),
        final(monitor).spec_controllers() == old(monitor).spec_controllers(),
        final(monitor).spec_selected() == old(monitor).spec_selected(),
        final(monitor).spec_leaves() == old(monitor).spec_leaves(),
{
    monitor.zoom_up(1);
    Result::Ok(())
}

/// Shrinks the selected region by one percent of its father's area.
pub fn zoom_down(monitor: &mut Monitor) -> (r: Result<(), MonitorError>)
    requires
        old(monitor).zoom_fits(1, false),
    ensures
        r is Ok,
        final(monitor).spec_root() == old(monitor).zoomed_root(1, false),
        final(monitor).spec_caches() == old(monitor).spec_caches(),
        final(monitor).spec_controllers() == old(monitor).spec_controllers(),
        final(monitor).spec_selected() == old(monitor).spec_selected(),
        final(monitor).spec_leaves() == old(monitor).spec_leaves(),
{
    monitor.zoom_down(1);
    Result::Ok(())
}

/// Makes the next buffer on screen that shows a file current, and selects
/// its region; see `Workspace::change_to_next_observation_buffer`.
pub fn next_observation_buffer(workspace: &mut Workspace, monitor: &mut Monitor) -> (r: Result<(), MonitorError>)
    requires
        old(workspace)@.2 matches Option::Some(ci) && ci < usize::MAX,
        old(workspace)@.1.len() > 0,
        exists|j: int| 0 <= j < old(workspace)@.1.len() && (#[trigger] old(workspace)@.1[j]).absolute_path is Some,
        forall|t: int| #[trigger] crate::workspace::is_next_with_path(
            old(workspace)@.1,
            ((old(workspace)@.2.unwrap() + 1) as int) % (old(workspace)@.1.len() as int),
            t,
        ) ==> (old(workspace)@.1[t].id matches Option::Some(id) ==> (old(monitor).spec_controllers().contains_key(id)
            ==> old(monitor).spec_leaves().contains(old(monitor).spec_controllers()[id].spec_region()))),
    ensures
        final(monitor).spec_root() == old(monitor).spec_root(),
        final(monitor).spec_caches() == old(monitor).spec_caches(),
        final(monitor).spec_controllers() == old(monitor).spec_controllers(),
        final(monitor).spec_leaves() == old(monitor).spec_leaves(),
        ({
            let s = old(workspace)@.1;
            let start = ((old(workspace)@.2.unwrap() + 1) as int) % (s.len() as int);
            &&& final(workspace)@.0 == old(workspace)@.0
            &&& final(workspace)@.1 == s
            &&& final(workspace)@.2 matches Option::Some(t) && crate::workspace::is_next_with_path(s, start, t as int)
            &&& match s[final(workspace)@.2.unwrap() as int].id {
                Option::None => r == Result::<(), MonitorError>::Err(MonitorError::BufferWithoutId),
                Option::Some(id) => if old(monitor).spec_controllers().contains_key(id) {
                    r is Ok && crate::monitor::is_first_index(
                        final(monitor).spec_leaves(),
                        final(monitor).spec_selected() as int,
                        old(monitor).spec_controllers()[id].spec_region(),
                    )
                } else {
                    r == Result::<(), MonitorError>::Err(MonitorError::MissingBuffer)
                },
            }
        }),
{
    workspace.change_to_next_observation_buffer(monitor)
}

/// Leaves the workspace mode for the normal mode: when the workspace mode was
/// entered from the buffer `prev_buffer_id`, that buffer is made current
/// again, with its region selected (see
/// `Workspace::change_to_target_observation_buffer`). The caller then
/// switches the mode.
pub fn to_normal_mode(workspace: &mut Workspace, monitor: &mut Monitor, prev_buffer_id: Option<usize>) -> (r: Result<(), MonitorError>)
    requires
        prev_buffer_id matches Option::Some(id) ==> (crate::workspace::has_id(old(workspace)@.1, id)
            && old(monitor).spec_controllers().contains_key(id) ==> old(monitor).spec_leaves().contains(
            old(monitor).spec_controllers()[id].spec_region(),
        )),
    ensures
        final(monitor).spec_root() == old(monitor).spec_root(),
        final(monitor).spec_caches() == old(monitor).spec_caches(),
        final(monitor).spec_controllers() == old(monitor).spec_controllers(),
        final(monitor).spec_leaves() == old(monitor).spec_leaves(),
        match prev_buffer_id {
            Option::None => *final(workspace) == *old(workspace) && *final(monitor) == *old(monitor) && r is Ok,
            Option::Some(id) => if crate::workspace::has_id(old(workspace)@.1, id) {
                &&& final(workspace)@ == (
                    old(workspace)@.0,
                    old(workspace)@.1,
                    Option::Some(crate::workspace::first_with_id(old(workspace)@.1, id) as usize),
                    old(workspace)@.3,
                )
                &&& if old(monitor).spec_controllers().contains_key(id) {
                    r is Ok && crate::monitor::is_first_index(
                        final(monitor).spec_leaves(),
                        final(monitor).spec_selected() as int,
                        old(monitor).spec_controllers()[id].spec_region(),
                    )
                } else {
                    r == Result::<(), MonitorError>::Err(MonitorError::MissingBuffer)
                        && final(monitor).spec_selected() == old(monitor).spec_selected()
                }
            } else {
                &&& r is Ok
                &&& final(workspace)@ == old(workspace)@
                &&& final(monitor).spec_selected() == old(monitor).spec_selected()
            },
        },
{
    if let Option::Some(id) = prev_buffer_id {
        match workspace.change_to_target_observation_buffer(id, monitor) {
            Result::Ok(_) => {},
            Result::Err(e) => return Result::Err(e),
        }
    }
    Result::Ok(())
}

} // verus!
