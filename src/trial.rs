use vstd::prelude::*;

use crate::element::Status;
use crate::schedule::{EventKind, EventTime, Schedule, ScheduleError};
use crate::tree::{failed_states, status_after, with_status, FtError, FT};

verus! {

/// What the driver of a trial must do after an event was applied.
#[derive(Clone, Copy, Debug, PartialEq, Eq, Structural)]
pub enum Step {
    /// The root failed at `time`: the trial is over.
    SystemFailed { time: u64 },
    /// `element` failed at `time` without failing the root: draw its repair interval.
    SampleRepair { element: usize, time: u64 },
    /// `element` was repaired at `time`: draw its next failure interval.
    SampleFailure { element: usize, time: u64 },
}

/// Reasons a trial cannot go on; each one is a broken invariant of the run.
#[derive(Clone, Copy, Debug, PartialEq, Eq, Structural)]
pub enum TrialError {
    Schedule(ScheduleError),
    Tree(FtError),
}

/// The step owed after `ev` was applied, leaving the tree's elements as `els`.
pub open spec fn step_after(els: Seq<crate::element::Element>, root: usize, ev: EventTime) -> Step {
    match ev.event_type {
        EventKind::Failure => if failed_states(els)[root as int] {
            Step::SystemFailed { time: ev.time }
        } else {
            Step::SampleRepair { element: ev.element, time: ev.time }
        },
        EventKind::Repair => Step::SampleFailure { element: ev.element, time: ev.time },
    }
}

/// Every pending event names a basic event of the tree.
pub open spec fn targets_basic(els: Seq<crate::element::Element>, events: Seq<EventTime>) -> bool {
    forall|j: int| 0 <= j < events.len() ==> (#[trigger] events[j]).element < els.len() && els[events[j].element as int] is Basic
}

/// Takes the earliest pending event, applies it to the tree, and says what
/// the trial needs next.
pub fn process_next(ft: &mut FT, schedule: &mut Schedule) -> (r: Result<Step, TrialError>)
    requires
        old(ft).linked(),
        old(schedule).wf(),
        targets_basic(old(ft)@, old(schedule)@),
    ensures
        final(ft).linked(),
        final(schedule).wf(),
        targets_basic(final(ft)@, final(schedule)@),
        final(ft).root_spec() == old(ft).root_spec(),
        old(schedule)@.len() == 0 ==> r == Err::<Step, TrialError>(TrialError::Schedule(ScheduleError::EmptyQueue))
            && final(ft)@ == old(ft)@ && final(schedule)@ == old(schedule)@,
        old(schedule)@.len() > 0 ==> ({
            let ev = old(schedule)@[0];
            let id = ev.element as int;
            let root = old(ft).root_spec();
            &&& final(schedule)@ == old(schedule)@.drop_first()
            &&& final(ft)@ == old(ft)@.update(id, with_status(old(ft)@[id], status_after(ev.event_type)))
            &&& final(ft)@[id] is Basic
            &&& ev.event_type == EventKind::Failure && root >= old(ft)@.len() ==> r == Err::<Step, TrialError>(
                TrialError::Tree(FtError::UnknownElement),
            )
            &&& (ev.event_type == EventKind::Repair || root < old(ft)@.len()) ==> r == Ok::<Step, TrialError>(
                step_after(final(ft)@, root, ev),
            )
        }),
{
    let ghost s = schedule@;
    let event_time = match schedule.pop_earliest() {
        Ok(e) => e,
        Err(e) => return Err(TrialError::Schedule(e)),
    };
    assert(s[0] == event_time);
    ft.process_event_time(event_time);
    assert forall|j: int| 0 <= j < schedule@.len() implies (#[trigger] schedule@[j]).element < ft@.len()
        && ft@[schedule@[j].element as int] is Basic by {
        assert(schedule@[j] == s[j + 1]);
    }
    match event_time.event_type {
        EventKind::Failure => match ft.get_failed(ft.get_root()) {
            Ok(true) => Ok(Step::SystemFailed { time: event_time.time }),
            Ok(false) => Ok(Step::SampleRepair { element: event_time.element, time: event_time.time }),
            Err(e) => Err(TrialError::Tree(e)),
        },
        EventKind::Repair => Ok(Step::SampleFailure { element: event_time.element, time: event_time.time }),
    }
}

/// Schedules the repair of `element` at `repair_time` after a repair interval
/// was drawn for it. An interval of zero means the element is never
/// repaired: nothing is scheduled then.
pub fn schedule_repair(schedule: &mut Schedule, element: usize, interval: u64, repair_time: u64)
    requires
        old(schedule).wf(),
    ensures
        final(schedule).wf(),
        interval == 0 ==> final(schedule)@ == old(schedule)@,
        interval > 0 ==> exists|k: int|
            crate::schedule::is_insert_pos(old(schedule)@, repair_time, k) && final(schedule)@ == old(schedule)@.insert(
                k,
                EventTime { time: repair_time, element, event_type: EventKind::Repair },
            ),
{
    if interval > 0 {
        schedule.insert(EventTime { time: repair_time, element, event_type: EventKind::Repair });
    }
}

/// Schedules the next failure of `element` at `failure_time`.
pub fn schedule_failure(schedule: &mut Schedule, element: usize, failure_time: u64)
    requires
        old(schedule).wf(),
    ensures
        final(schedule).wf(),
        exists|k: int|
            crate::schedule::is_insert_pos(old(schedule)@, failure_time, k) && final(schedule)@ == old(
                schedule,
            )@.insert(k, EventTime { time: failure_time, element, event_type: EventKind::Failure }),
{
    schedule.insert(EventTime { time: failure_time, element, event_type: EventKind::Failure });
}

/// Records the system-failure time of a finished trial and sets every basic
/// event back to alive for the next one.
pub fn finish_trial(ft: &mut FT, times: &mut Vec<u64>, time: u64)
    requires
        old(ft).wf(),
    ensures
        final(ft).wf(),
        old(ft).linked() ==> final(ft).linked(),
        final(ft).root_spec() == old(ft).root_spec(),
        final(ft)@ == crate::tree::reset_all(old(ft)@),
        final(times)@ == old(times)@.push(time),
        forall|i: int| 0 <= i < final(ft)@.len() && (#[trigger] final(ft)@[i]) is Basic
            ==> final(ft)@[i]->Basic_0.status == Status::Alive,
{
    times.push(time);
    ft.reset_basic_events();
}

} // verus!
