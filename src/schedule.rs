use vstd::prelude::*;

verus! {

/// What happens to an element at an event.
#[derive(Clone, Copy, Debug, PartialEq, Eq, Structural)]
pub enum EventKind {
    Failure,
    Repair,
}

/// A pending event. `time` is a point on the simulation clock as an
/// order-preserving key: a later time has a larger key.
#[derive(Clone, Copy, Debug, PartialEq, Eq, Structural)]
pub struct EventTime {
    pub time: u64,
    pub element: usize,
    pub event_type: EventKind,
}

/// Events in non-decreasing order of time.
pub open spec fn sorted(s: Seq<EventTime>) -> bool {
    forall|i: int, j: int| 0 <= i <= j < s.len() ==> #[trigger] s[i].time <= #[trigger] s[j].time
}

/// Where an event at time `t` goes: before the first event not strictly earlier.
pub open spec fn is_insert_pos(s: Seq<EventTime>, t: u64, k: int) -> bool {
    &&& 0 <= k <= s.len()
    &&& forall|j: int| 0 <= j < k ==> #[trigger] s[j].time < t
    &&& forall|j: int| k <= j < s.len() ==> #[trigger] s[j].time >= t
}

/// Reasons a schedule operation is refused.
#[derive(Clone, Copy, Debug, PartialEq, Eq, Structural)]
pub enum ScheduleError {
    /// There is no pending event.
    EmptyQueue,
}

/// The pending events of a trial, earliest first.
pub struct Schedule {
    events: Vec<EventTime>,
}

impl View for Schedule {
    type V = Seq<EventTime>;

    closed spec fn view(&self) -> Seq<EventTime> {
        self.events@
    }
}

impl Schedule {
    pub open spec fn wf(&self) -> bool {
        sorted(self@)
    }

    pub fn new() -> (r: Schedule)
        ensures
            r@ == Seq::<EventTime>::empty(),
            r.wf(),
    {
        Schedule { events: Vec::new() }
    }

    pub fn len(&self) -> (r: usize)
        ensures
            r == self@.len(),
    {
        self.events.len()
    }

    /// Inserts `event` before the first pending event whose time is not
    /// strictly earlier, so that events of equal time leave in reverse order
    /// of arrival.
    pub fn insert(&mut self, event: EventTime)
        requires
            old(self).wf(),
        ensures
            final(self).wf(),
            exists|k: int|
                is_insert_pos(old(self)@, event.time, k) && final(self)@ == old(self)@.insert(k, event),
    {
        let mut index: usize = 0;
        while index < self.events.len() && event.time > self.events[index].time
            invariant
                index <= self.events@.len(),
                forall|j: int| 0 <= j < index ==> #[trigger] self.events@[j].time < event.time,
            decreases self.events@.len() - index,
        {
            index += 1;
        }
        let ghost s = self@;
        assert(is_insert_pos(s, event.time, index as int));
        self.events.insert(index, event);
        proof {
            lemma_insert_sorted(s, event, index as int);
        }
    }

    /// Removes and returns the earliest pending event.
    pub fn pop_earliest(&mut self) -> (r: Result<EventTime, ScheduleError>)
        requires
            old(self).wf(),
        ensures
            final(self).wf(),
            old(self)@.len() == 0 <==> r is Err,
            r is Err ==> final(self)@ == old(self)@,
            r is Ok ==> r->Ok_0 == old(self)@[0] && final(self)@ == old(self)@.drop_first(),
            r is Ok ==> forall|j: int| 0 <= j < final(self)@.len() ==> r->Ok_0.time <= #[trigger] final(self)@[j].time,
    {
        if self.events.len() == 0 {
            return Err(ScheduleError::EmptyQueue);
        }
        let ghost s = self@;
        let e = self.events.remove(0);
        assert(self@ =~= s.drop_first());
        assert forall|j: int| 0 <= j < self@.len() implies e.time <= #[trigger] self@[j].time by {
            assert(self@[j] == s[j + 1]);
        }
        Ok(e)
    }
}

/// Inserting at the insertion point keeps a sorted sequence sorted.
pub proof fn lemma_insert_sorted(s: Seq<EventTime>, e: EventTime, k: int)
    requires
        sorted(s),
        is_insert_pos(s, e.time, k),
    ensures
        sorted(s.insert(k, e)),
{
    let t = s.insert(k, e);
    assert forall|i: int, j: int| 0 <= i <= j < t.len() implies #[trigger] t[i].time <= #[trigger] t[j].time by {
        if i < k && j < k {
            assert(t[i] == s[i] && t[j] == s[j]);
        } else if i < k && j == k {
            assert(t[i] == s[i]);
        } else if i < k {
            assert(t[i] == s[i] && t[j] == s[j - 1]);
        } else if i == k && j > k {
            assert(t[j] == s[j - 1]);
        } else if i > k {
            assert(t[i] == s[i - 1] && t[j] == s[j - 1]);
        }
    }
}

} // verus!
