//! Time- and delta-cycle-ordered event scheduler.
//!
//! The scheduler keeps a current time and three buckets of events:
//! `active` (due now, ready this delta cycle), `inactive` (due now, deferred
//! to the next delta cycle), and `future` (due strictly later). Scheduling
//! at or before the current time defers the event by one delta cycle;
//! advancing time promotes exactly the earliest batch of future events.
//!
//! Every operation is specified against the mathematical model
//! [`QueueModel`], so the driver protocol's ordering guarantees are stated
//! and proved here, not assumed.

use vstd::prelude::*;

use crate::event::Event;
use crate::event::EventWrapper;

verus! {

/// Mathematical model of a scheduler: the current time and the contents of
/// the three buckets, as sequences.
#[verifier::ext_equal]
pub ghost struct QueueModel {
    pub time: u32,
    pub active: Seq<Event>,
    pub inactive: Seq<Event>,
    pub future: Seq<EventWrapper>,
}

/// The scheduler's invariant: every pending future event is due strictly
/// after the current time.
pub open spec fn queue_wf(m: QueueModel) -> bool {
    forall|i: int| 0 <= i < m.future.len() ==> #[trigger] m.future[i].time > m.time
}

/// The earliest time present among the pending future events.
pub open spec fn min_future_time(fut: Seq<EventWrapper>) -> u32
    recommends
        fut.len() > 0,
    decreases fut.len(),
{
    if fut.len() <= 1 {
        fut[0].time
    } else {
        let rest = min_future_time(fut.drop_last());
        if fut.last().time <= rest {
            fut.last().time
        } else {
            rest
        }
    }
}

/// `min_future_time` is a lower bound of the future bucket and is attained
/// by some pending event.
pub proof fn lemma_min_future_time(fut: Seq<EventWrapper>)
    requires
        fut.len() > 0,
    ensures
        forall|i: int| 0 <= i < fut.len() ==> min_future_time(fut) <= #[trigger] fut[i].time,
        exists|i: int| 0 <= i < fut.len() && #[trigger] fut[i].time == min_future_time(fut),
    decreases fut.len(),
{
    if fut.len() <= 1 {
        assert(fut[0].time == min_future_time(fut));
    } else {
        lemma_min_future_time(fut.drop_last());
        assert(forall|i: int|
            0 <= i < fut.len() - 1 ==> #[trigger] fut[i].time == fut.drop_last()[i].time);
        if fut.last().time <= min_future_time(fut.drop_last()) {
            assert(fut[fut.len() - 1].time == min_future_time(fut));
        } else {
            let j = choose|j: int|
                0 <= j < fut.drop_last().len() && #[trigger] fut.drop_last()[j].time
                    == min_future_time(fut.drop_last());
            assert(fut[j].time == min_future_time(fut));
        }
    }
}

/// The payloads of the future events due exactly at time `t`, in order.
pub open spec fn due_events(fut: Seq<EventWrapper>, t: u32) -> Seq<Event> {
    fut.filter(|w: EventWrapper| w.time == t).map_values(|w: EventWrapper| w.event)
}

/// The future events due strictly after time `t`, in order.
pub open spec fn later_events(fut: Seq<EventWrapper>, t: u32) -> Seq<EventWrapper> {
    fut.filter(|w: EventWrapper| w.time > t)
}

/// How one appended event extends the due and later partitions.
proof fn lemma_partition_push(fut: Seq<EventWrapper>, w: EventWrapper, t: u32)
    ensures
        due_events(fut.push(w), t) == if w.time == t {
            due_events(fut, t).push(w.event)
        } else {
            due_events(fut, t)
        },
        later_events(fut.push(w), t) == if w.time > t {
            later_events(fut, t).push(w)
        } else {
            later_events(fut, t)
        },
{
    broadcast use Seq::lemma_filter_push;
    broadcast use Seq::lemma_push_map_commute;

}

/// Everything left for later is due strictly after `t`.
pub proof fn lemma_later_events_later(fut: Seq<EventWrapper>, t: u32)
    ensures
        forall|i: int|
            0 <= i < later_events(fut, t).len() ==> #[trigger] later_events(fut, t)[i].time > t,
{
    broadcast use Seq::lemma_filter_pred;

}

/// Model of `schedule`: at or before the current time the event is deferred
/// to `inactive`; strictly later it joins `future`.
pub open spec fn scheduled(m: QueueModel, time: u32, event: Event) -> QueueModel {
    if time <= m.time {
        QueueModel {
            time: m.time,
            active: m.active,
            inactive: m.inactive.push(event),
            future: m.future,
        }
    } else {
        QueueModel {
            time: m.time,
            active: m.active,
            inactive: m.inactive,
            future: m.future.push(EventWrapper { time, event }),
        }
    }
}

/// Model of `advance_time`: with nothing pending this is a no-op; otherwise
/// the current time becomes the earliest pending time and exactly the
/// events due then move, in order, to the end of `active`.
pub open spec fn advanced(m: QueueModel) -> QueueModel {
    if m.future.len() == 0 {
        m
    } else {
        let t = min_future_time(m.future);
        QueueModel {
            time: t,
            active: m.active + due_events(m.future, t),
            inactive: m.inactive,
            future: later_events(m.future, t),
        }
    }
}

/// Model of `activate_inactive_events`: the next delta cycle begins; the
/// deferred events join `active` and `inactive` drains.
pub open spec fn activated(m: QueueModel) -> QueueModel {
    QueueModel {
        time: m.time,
        active: m.active + m.inactive,
        inactive: Seq::empty(),
        future: m.future,
    }
}

/// Model of the state after `next_active`: the last ready event is removed;
/// an empty `active` bucket is left unchanged.
pub open spec fn after_pop(m: QueueModel) -> QueueModel {
    if m.active.len() == 0 {
        m
    } else {
        QueueModel {
            time: m.time,
            active: m.active.drop_last(),
            inactive: m.inactive,
            future: m.future,
        }
    }
}

/// Model of the value `next_active` returns.
pub open spec fn pop_result(m: QueueModel) -> Option<Event> {
    if m.active.len() == 0 {
        None
    } else {
        Some(m.active.last())
    }
}

/// The drain phase of the composite tick protocol: with `active` ready,
/// nothing moves; else a further delta cycle at the same instant begins if
/// any event was deferred; else time advances to the earliest future batch.
pub open spec fn settled(m: QueueModel) -> QueueModel {
    if m.active.len() > 0 {
        m
    } else if m.inactive.len() > 0 {
        activated(m)
    } else {
        activated(advanced(m))
    }
}

/// Model of the scheduler state after one tick of the driver protocol.
pub open spec fn ticked(m: QueueModel) -> QueueModel {
    after_pop(settled(m))
}

/// Model of the event one tick of the driver protocol hands out.
pub open spec fn tick_result(m: QueueModel) -> Option<Event> {
    pop_result(settled(m))
}

/// Law: advancing promotes exactly the earliest future batch. The new time
/// is the minimum pending time, strictly after the old; the promoted
/// payloads are those due at the new time, appended in order after the
/// events already ready; everything kept in `future` is due strictly later,
/// so repeated advances expose events in increasing time order and never
/// one due after the new current time.
pub proof fn lemma_future_ordering(m: QueueModel)
    requires
        queue_wf(m),
        m.future.len() > 0,
    ensures
        advanced(m).time == min_future_time(m.future),
        m.time < advanced(m).time,
        queue_wf(advanced(m)),
        advanced(m).inactive == m.inactive,
        advanced(m).active == m.active + due_events(m.future, advanced(m).time),
        forall|i: int|
            0 <= i < advanced(m).future.len() ==> #[trigger] advanced(m).future[i].time
                > advanced(m).time,
{
    lemma_min_future_time(m.future);
    let j = choose|j: int|
        0 <= j < m.future.len() && #[trigger] m.future[j].time == min_future_time(m.future);
    assert(m.future[j].time > m.time);
    lemma_later_events_later(m.future, min_future_time(m.future));
}

/// Law: advances compose in time order: whatever a second advance
/// promotes is due strictly after everything the first one exposed, so a
/// run of advances hands batches to `active` in strictly increasing time
/// order.
pub proof fn lemma_repeated_advance_ordering(m: QueueModel)
    requires
        queue_wf(m),
        m.future.len() > 0,
        advanced(m).future.len() > 0,
    ensures
        advanced(m).time < advanced(advanced(m)).time,
{
    lemma_future_ordering(m);
    lemma_future_ordering(advanced(m));
}

/// Law: across one tick the current time never decreases. It moves only
/// when the tick finds both same-instant buckets empty and promotes the
/// earliest future batch, and then exactly to the minimum time pending in
/// `future` at that moment.
pub proof fn lemma_tick_time_monotonic(m: QueueModel)
    requires
        queue_wf(m),
    ensures
        m.time <= ticked(m).time,
        queue_wf(ticked(m)),
        (m.active.len() > 0 || m.inactive.len() > 0 || m.future.len() == 0) ==> ticked(m).time
            == m.time,
        (m.active.len() == 0 && m.inactive.len() == 0 && m.future.len() > 0) ==> ticked(m).time
            == min_future_time(m.future),
{
    if m.active.len() == 0 && m.inactive.len() == 0 && m.future.len() > 0 {
        lemma_future_ordering(m);
    }
}

/// Law (delta deferral, first step): an event scheduled at or before the
/// current time joins `inactive` only; `active`, `future` and the time are
/// untouched, so the delta cycle that scheduled it cannot see it.
pub proof fn lemma_delta_deferral(m: QueueModel, time: u32, event: Event)
    requires
        time <= m.time,
    ensures
        scheduled(m, time, event).active == m.active,
        scheduled(m, time, event).inactive == m.inactive.push(event),
        scheduled(m, time, event).future == m.future,
        scheduled(m, time, event).time == m.time,
{
}

/// Law (delta deferral, second step): `next_active` hands out only events
/// already ready. An event absent from `active` is never its result and
/// stays absent, and `inactive` is untouched — so a deferred event stays
/// invisible until `activate_inactive_events` is called.
pub proof fn lemma_pop_returns_only_active(m: QueueModel, event: Event)
    requires
        !m.active.contains(event),
    ensures
        pop_result(m) != Some(event),
        !after_pop(m).active.contains(event),
        after_pop(m).inactive == m.inactive,
{
    if m.active.len() > 0 {
        assert(m.active.contains(m.active[m.active.len() - 1]));
        if after_pop(m).active.contains(event) {
            let i = choose|i: int|
                0 <= i < m.active.drop_last().len() && m.active.drop_last()[i] == event;
            assert(m.active.contains(m.active[i]));
        }
    }
}

/// Law (delta deferral, third step): beginning the next delta cycle makes
/// every deferred event ready, and exactly then.
pub proof fn lemma_activation_promotes(m: QueueModel, event: Event)
    requires
        m.inactive.contains(event),
    ensures
        activated(m).active.contains(event),
        activated(m).inactive.len() == 0,
{
    let i = choose|i: int| 0 <= i < m.inactive.len() && m.inactive[i] == event;
    assert(activated(m).active[m.active.len() + i] == event);
    assert(activated(m).active.contains(activated(m).active[m.active.len() + i]));
}

/// Law: a tick of a quiescent scheduler — all three buckets empty —
/// returns nothing and changes nothing, the current time included.
pub proof fn lemma_quiescence(m: QueueModel)
    requires
        m.active.len() == 0,
        m.inactive.len() == 0,
        m.future.len() == 0,
    ensures
        ticked(m) == m,
        tick_result(m) is None,
{
    assert(ticked(m) =~= m);
}

/// The scheduler: current time plus the three buckets of pending work.
pub struct EventQueue {
    pub time: u32,
    pub active: Vec<Event>,
    pub inactive: Vec<Event>,
    pub future: Vec<EventWrapper>,
}

impl View for EventQueue {
    type V = QueueModel;

    open spec fn view(&self) -> QueueModel {
        QueueModel {
            time: self.time,
            active: self.active@,
            inactive: self.inactive@,
            future: self.future@,
        }
    }
}

impl EventQueue {
    /// A fresh scheduler: time zero, nothing pending.
    pub fn new() -> (q: EventQueue)
        ensures
            q@.time == 0,
            q@.active == Seq::<Event>::empty(),
            q@.inactive == Seq::<Event>::empty(),
            q@.future == Seq::<EventWrapper>::empty(),
            queue_wf(q@),
    {
        EventQueue { time: 0, active: Vec::new(), inactive: Vec::new(), future: Vec::new() }
    }

    /// Whether the current delta cycle still has ready work.
    pub fn has_active_events(&self) -> (r: bool)
        ensures
            r == (self@.active.len() > 0),
    {
        self.active.len() > 0
    }

    /// Pops the next ready event of the current delta cycle, or reports
    /// emptiness as an ordinary `None`, never as a fault.
    pub fn next_active(&mut self) -> (r: Option<Event>)
        ensures
            final(self)@ == after_pop(old(self)@),
            queue_wf(old(self)@) ==> queue_wf(final(self)@),
            r == pop_result(old(self)@),
    {
        self.active.pop()
    }

    /// Whether any event was deferred to the next delta cycle at this
    /// instant.
    pub fn has_inactive_events(&self) -> (r: bool)
        ensures
            r == (self@.inactive.len() > 0),
    {
        self.inactive.len() > 0
    }

    /// Ends the current delta cycle: every deferred event becomes ready and
    /// `inactive` drains to empty.
    pub fn activate_inactive_events(&mut self)
        ensures
            final(self)@ == activated(old(self)@),
            queue_wf(old(self)@) ==> queue_wf(final(self)@),
    {
        self.active.append(&mut self.inactive);
    }

    /// Advances time to the earliest pending future instant and makes every
    /// event due then ready, in order. With nothing pending this is a no-op:
    /// time does not move, and the caller detects quiescence separately.
    pub fn advance_time(&mut self)
        ensures
            final(self)@ == advanced(old(self)@),
            queue_wf(old(self)@) ==> queue_wf(final(self)@) && old(self)@.time
                <= final(self)@.time,
    {
        proof {
            if queue_wf(self@) && self@.future.len() > 0 {
                lemma_future_ordering(self@);
            }
        }
        if self.future.len() == 0 {
            return ;
        }
        let ghost m0 = self@;
        let ghost fut0 = self.future@;

        let mut t: u32 = self.future[0].time;
        let mut i: usize = 1;
        while i < self.future.len()
            invariant
                1 <= i <= self.future@.len(),
                self@ == m0,
                self.future@ == fut0,
                t == min_future_time(fut0.take(i as int)),
            decreases self.future@.len() - i,
        {
            proof {
                fut0.lemma_take_succ_push(i as int);
                assert(fut0.take(i + 1).drop_last() =~= fut0.take(i as int));
            }
            if self.future[i].time < t {
                t = self.future[i].time;
            }
            i += 1;
        }
        proof {
            assert(fut0.take(fut0.len() as int) =~= fut0);
            lemma_min_future_time(fut0);
        }

        self.time = t;
        let mut kept: Vec<EventWrapper> = Vec::new();
        let mut idx: usize = 0;
        while idx < self.future.len()
            invariant
                idx <= self.future@.len(),
                self.future@ == fut0,
                self.time == t,
                t == min_future_time(fut0),
                self.inactive@ == m0.inactive,
                forall|k: int| 0 <= k < fut0.len() ==> t <= #[trigger] fut0[k].time,
                self.active@ == m0.active + due_events(fut0.take(idx as int), t),
                kept@ == later_events(fut0.take(idx as int), t),
            decreases self.future@.len() - idx,
        {
            proof {
                fut0.lemma_take_succ_push(idx as int);
                lemma_partition_push(fut0.take(idx as int), fut0[idx as int], t);
            }
            let w = self.future[idx];
            if w.time == t {
                self.active.push(w.event);
            } else {
                kept.push(w);
            }
            idx += 1;
        }
        proof {
            assert(fut0.take(fut0.len() as int) =~= fut0);
        }
        self.future = kept;
    }

    /// Schedules an event. At or before the current time it is deferred to
    /// the next delta cycle; a past time is treated as "now", not as an
    /// error. Strictly later times go to the future bucket.
    pub fn schedule(&mut self, time: u32, event: Event)
        ensures
            final(self)@ == scheduled(old(self)@, time, event),
            queue_wf(old(self)@) ==> queue_wf(final(self)@),
    {
        if time <= self.time {
            self.inactive.push(event);
        } else {
            self.future.push(EventWrapper::new(time, event));
        }
    }
}

/// One tick of the composite driver protocol: with `active` empty it first
/// starts the next delta cycle at this instant (if anything was deferred),
/// or else advances time to the earliest future batch; then it pops one
/// ready event. Returns `None` exactly when the scheduler is quiescent.
pub fn timing_routine(queue: &mut EventQueue) -> (r: Option<Event>)
    ensures
        final(queue)@ == ticked(old(queue)@),
        r == tick_result(old(queue)@),
        queue_wf(old(queue)@) ==> queue_wf(final(queue)@) && old(queue)@.time
            <= final(queue)@.time,
{
    proof {
        if queue_wf(queue@) {
            lemma_tick_time_monotonic(queue@);
        }
    }
    if !queue.has_active_events() {
        if queue.has_inactive_events() {
            queue.activate_inactive_events();
        } else {
            queue.advance_time();
            queue.activate_inactive_events();
        }
    }
    queue.next_active()
}

} // verus!
