//! What holds of the line, whatever its waiters do: the queue stays well
//! formed, nobody is overtaken, and the report of throttling is exact.

use vstd::prelude::*;
use crate::leaky_bucket::{Acquire, RateLimiterView};
use crate::leaky_bucket::queue::{QueueView, Waiter, WaiterState};

verus! {

/// What can happen to a queue.
pub enum QueueEvent {
    /// A handle was given out.
    Issued,
    /// The waiter was polled.
    Polled(u64),
    /// The waiter gave up what it had.
    Released(u64),
    /// The waiter, if it holds the token, chose to sleep.
    Slept(u64),
}

impl QueueView {
    /// The queue after `event`.
    pub open spec fn after(self, event: QueueEvent) -> Self {
        match event {
            QueueEvent::Issued => self.issued_one(),
            QueueEvent::Polled(id) => self.polled(id),
            QueueEvent::Released(id) => self.released(id),
            QueueEvent::Slept(id) => self.slept(id),
        }
    }

    /// The queue after all of `events`, in their order.
    pub open spec fn after_all(self, events: Seq<QueueEvent>) -> Self
        decreases events.len(),
    {
        if events.len() == 0 {
            self
        } else {
            self.after_all(events.drop_last()).after(events.last())
        }
    }

    /// How often a holder of the token sleeps in the course of `events`.
    pub open spec fn sleeps(self, events: Seq<QueueEvent>) -> nat
        decreases events.len(),
    {
        if events.len() == 0 {
            0
        } else {
            let before = self.after_all(events.drop_last());
            self.sleeps(events.drop_last()) + (match events.last() {
                QueueEvent::Slept(id) if before.is_holder(id) => 1nat,
                _ => 0nat,
            })
        }
    }

    /// Everybody who has the token or waits for it: the leader first, then
    /// the line in the order of arrival.
    pub open spec fn line(self) -> Seq<Waiter> {
        (match self.holder {
            Some(w) => seq![w],
            None => match self.elected {
                Some(w) => seq![w],
                None => Seq::empty(),
            },
        }) + self.queue
    }

    /// Whether `first` stands before `second`.
    pub open spec fn ahead(self, first: u64, second: u64) -> bool {
        exists|i: int, j: int|
            0 <= i < j < self.line().len() && (#[trigger] self.line()[i]).id == first && (
            #[trigger] self.line()[j]).id == second
    }

    /// Whether `id` has the token or waits for it.
    pub open spec fn in_line(self, id: u64) -> bool {
        exists|i: int| 0 <= i < self.line().len() && (#[trigger] self.line()[i]).id == id
    }

    /// Whether `id` leads: it was handed the token, or holds it.
    pub open spec fn leads(self, id: u64) -> bool {
        self.is_holder(id) || self.is_elected(id)
    }
}

/// Whether `id` never gives up in the course of `events`.
pub open spec fn stays(events: Seq<QueueEvent>, id: u64) -> bool {
    forall|i: int| 0 <= i < events.len() ==> #[trigger] events[i] != QueueEvent::Released(id)
}

/// In a well-formed queue nobody is in the line twice, and the leader
/// stands first.
pub proof fn lemma_line(queue: QueueView)
    requires
        queue.wf(),
    ensures
        forall|i: int, j: int|
            0 <= i < j < queue.line().len() ==> (#[trigger] queue.line()[i]).id != (
            #[trigger] queue.line()[j]).id,
        forall|id: u64| #[trigger]
            queue.leads(id) <==> !queue.token && queue.line().len() > 0 && queue.line()[0].id
                == id,
        queue.token ==> queue.line().len() == 0,
        queue.line().len() == queue.queue.len() + (if queue.token {
            0int
        } else {
            1int
        }),
        forall|i: int|
            0 <= i < queue.line().len() ==> (#[trigger] queue.line()[i]).start_count
                <= queue.sleep_counter,
{
    let line = queue.line();
    if !queue.token {
        let leader = line[0];
        assert(line =~= seq![leader] + queue.queue);
        assert forall|i: int, j: int| 0 <= i < j < line.len() implies (#[trigger] line[i]).id != (
        #[trigger] line[j]).id by {
            if i == 0 {
                assert(queue.queue[j - 1].id == line[j].id);
                assert(!queue.is_queued(leader.id));
            } else {
                assert(queue.queue[i - 1].id != queue.queue[j - 1].id);
            }
        }
        assert forall|i: int| 0 <= i < line.len() implies (#[trigger] line[i]).start_count
            <= queue.sleep_counter by {
            if i > 0 {
                assert(queue.queue[i - 1].start_count <= queue.sleep_counter);
            }
        }
    } else {
        assert(line =~= Seq::<Waiter>::empty());
    }
}

/// Every event leaves the queue well formed, as long as the counters have
/// room. The line changes in one of three ways only: it stays, a new
/// waiter joins its end, or the waiter that gives up leaves it.
pub proof fn lemma_after(queue: QueueView, event: QueueEvent)
    requires
        queue.wf(),
        event is Issued ==> queue.issued < u64::MAX,
        event is Slept ==> queue.sleep_counter < u64::MAX,
    ensures
        queue.after(event).wf(),
        queue.issued <= queue.after(event).issued <= queue.issued + 1,
        queue.sleep_counter <= queue.after(event).sleep_counter <= queue.sleep_counter + 1,
        queue.after(event).sleep_counter != queue.sleep_counter <==> (event matches QueueEvent::Slept(
            id,
        ) && queue.is_holder(id)),
        ({
            let line = queue.line();
            let after = queue.after(event).line();
            ||| after == line
            ||| (event matches QueueEvent::Polled(id) && queue.state_of(id) == WaiterState::Detached
                && after == line.push(Waiter { id, start_count: queue.sleep_counter }))
            ||| (event matches QueueEvent::Released(id) && exists|k: int|
                0 <= k < line.len() && (#[trigger] line[k]).id == id && after == line.remove(k))
        }),
{
    let line = queue.line();
    let next = queue.after(event);
    lemma_line(queue);
    match event {
        QueueEvent::Issued => {
            assert(next.queue == queue.queue);
            assert forall|w: u64| next.is_queued(w) == queue.is_queued(w) by {}
            assert(next.line() =~= line);
        },
        QueueEvent::Slept(id) => {
            assert(next.queue == queue.queue);
            assert forall|w: u64| next.is_queued(w) == queue.is_queued(w) by {}
            assert(next.line() =~= line);
        },
        QueueEvent::Polled(id) => {
            match queue.state_of(id) {
                WaiterState::Holding | WaiterState::Linked => {},
                WaiterState::Elected => {
                    assert(next.queue == queue.queue);
                    assert forall|w: u64| next.is_queued(w) == queue.is_queued(w) by {}
                    assert(next.line() =~= line);
                },
                WaiterState::Detached => {
                    let arrived = Waiter { id, start_count: queue.sleep_counter };
                    if id >= queue.issued {
                    } else if queue.token {
                        assert(next.queue == queue.queue);
                        assert forall|w: u64| next.is_queued(w) == queue.is_queued(w) by {}
                        assert(next.line() =~= line.push(arrived));
                    } else {
                        let before = queue.queue;
                        assert(next.queue == before.push(arrived));
                        assert forall|w: u64| w != id && !queue.is_queued(w) implies !(
                        #[trigger] next.is_queued(w)) by {
                            if next.is_queued(w) {
                                let i = choose|i: int|
                                    0 <= i < next.queue.len() && (#[trigger] next.queue[i]).id == w;
                                assert(before[i].id == w);
                            }
                        }
                        assert forall|i: int, j: int| 0 <= i < j < next.queue.len() implies (
                        #[trigger] next.queue[i]).id != (#[trigger] next.queue[j]).id by {
                            if j == before.len() {
                                assert(before[i].id != id);
                            } else {
                                assert(before[i].id != before[j].id);
                            }
                        }
                        assert forall|i: int| 0 <= i < next.queue.len() implies (
                        #[trigger] next.queue[i]).id < next.issued && next.queue[i].start_count
                            <= next.sleep_counter by {
                            if i < before.len() {
                                assert(before[i].id < queue.issued);
                            }
                        }
                        assert(next.line() =~= line.push(arrived));
                    }
                },
            }
        },
        QueueEvent::Released(id) => {
            match queue.state_of(id) {
                WaiterState::Holding | WaiterState::Elected => {
                    let before = queue.queue;
                    assert(line[0].id == id);
                    if before.len() > 0 {
                        let head = before[0];
                        assert(next.queue == before.drop_first());
                        assert(next.elected == Some(head));
                        if next.is_queued(head.id) {
                            let i = choose|i: int|
                                0 <= i < next.queue.len() && (#[trigger] next.queue[i]).id
                                    == head.id;
                            assert(before[i + 1].id == head.id);
                            assert(before[0].id != before[i + 1].id);
                        }
                        assert forall|i: int, j: int| 0 <= i < j < next.queue.len() implies (
                        #[trigger] next.queue[i]).id != (#[trigger] next.queue[j]).id by {
                            assert(before[i + 1].id != before[j + 1].id);
                        }
                        assert forall|i: int| 0 <= i < next.queue.len() implies (
                        #[trigger] next.queue[i]).id < next.issued && next.queue[i].start_count
                            <= next.sleep_counter by {
                            assert(before[i + 1].id < queue.issued);
                        }
                        assert(before[0].id < queue.issued);
                    }
                    assert(next.line() =~= line.remove(0));
                },
                WaiterState::Linked => {
                    let i = queue.index_of(id);
                    lemma_unlinked(queue, i);
                    assert(line[i + 1].id == id);
                    assert(next.line() =~= line.remove(i + 1));
                },
                WaiterState::Detached => {},
            }
        },
    }
}

/// Taking the waiter at `i` out of the line leaves a well-formed queue.
pub proof fn lemma_unlinked(queue: QueueView, i: int)
    requires
        queue.wf(),
        0 <= i < queue.queue.len(),
    ensures
        (QueueView { queue: queue.queue.remove(i), ..queue }).wf(),
{
    let before = queue.queue;
    let after = QueueView { queue: before.remove(i), ..queue };
    assert forall|k: int| 0 <= k < after.queue.len() implies #[trigger] after.queue[k] == before[if k
        < i {
        k
    } else {
        k + 1
    }] by {}
    assert forall|id: u64| after.is_queued(id) implies queue.is_queued(id) by {
        let k = choose|k: int| 0 <= k < after.queue.len() && (#[trigger] after.queue[k]).id == id;
        assert(before[if k < i {
            k
        } else {
            k + 1
        }].id == id);
    }
    assert forall|a: int, b: int| 0 <= a < b < after.queue.len() implies (
    #[trigger] after.queue[a]).id != (#[trigger] after.queue[b]).id by {
        let a0 = if a < i {
            a
        } else {
            a + 1
        };
        let b0 = if b < i {
            b
        } else {
            b + 1
        };
        assert(before[a0].id != before[b0].id);
    }
    assert forall|k: int| 0 <= k < after.queue.len() implies (#[trigger] after.queue[k]).id
        < after.issued && after.queue[k].start_count <= after.sleep_counter by {
        assert(before[if k < i {
            k
        } else {
            k + 1
        }].id < queue.issued);
    }
}

/// Whatever happens, the queue stays well formed, and the sleep counter
/// counts exactly the sleeps of the holders, as long as the counters have
/// room.
pub proof fn lemma_after_all(queue: QueueView, events: Seq<QueueEvent>)
    requires
        queue.wf(),
        queue.issued + events.len() <= u64::MAX,
        queue.sleep_counter + events.len() <= u64::MAX,
    ensures
        queue.after_all(events).wf(),
        queue.after_all(events).issued <= queue.issued + events.len(),
        queue.after_all(events).sleep_counter == queue.sleep_counter + queue.sleeps(events),
        queue.sleeps(events) <= events.len(),
    decreases events.len(),
{
    if events.len() > 0 {
        lemma_after_all(queue, events.drop_last());
        lemma_after(queue.after_all(events.drop_last()), events.last());
    }
}

/// Nobody is overtaken by one event: while `first` stands before `second`
/// and does not give up, `second` stays behind `first` for as long as it
/// is there, and does not lead.
pub proof fn lemma_fifo_step(queue: QueueView, event: QueueEvent, first: u64, second: u64)
    requires
        queue.wf(),
        event is Issued ==> queue.issued < u64::MAX,
        event is Slept ==> queue.sleep_counter < u64::MAX,
        queue.ahead(first, second),
        event != QueueEvent::Released(first),
    ensures
        queue.after(event).in_line(first),
        queue.after(event).in_line(second) ==> queue.after(event).ahead(first, second),
        !queue.after(event).leads(second),
{
    let line = queue.line();
    let next = queue.after(event);
    let after = next.line();
    lemma_after(queue, event);
    lemma_line(queue);
    lemma_line(next);
    let (i, j) = choose|i: int, j: int|
        0 <= i < j < line.len() && (#[trigger] line[i]).id == first && (#[trigger] line[j]).id
            == second;
    if after == line {
        assert(after[i].id == first && after[j].id == second);
    } else if exists|w: Waiter| after == line.push(w) {
        assert(after[i].id == first && after[j].id == second);
    } else {
        let id = event->Released_0;
        let k = choose|k: int| 0 <= k < line.len() && (#[trigger] line[k]).id == id && after
            == line.remove(k);
        assert(k != i);
        let i1 = if k < i {
            i - 1
        } else {
            i
        };
        assert(after[i1].id == first);
        if next.in_line(second) {
            let m = choose|m: int| 0 <= m < after.len() && (#[trigger] after[m]).id == second;
            let m0 = if m < k {
                m
            } else {
                m + 1
            };
            assert(line[m0].id == second);
            assert(m0 == j);
            assert(k != j);
            let j1 = if k < j {
                j - 1
            } else {
                j
            };
            assert(after[j1].id == second);
            assert(i1 < j1);
        }
    }
    if next.leads(second) {
        assert(after[0].id == second);
        assert(next.in_line(second));
        let (a, b) = choose|a: int, b: int|
            0 <= a < b < after.len() && (#[trigger] after[a]).id == first && (#[trigger] after[b]).id
                == second;
        assert(after[0].id != after[b].id);
    }
}

/// Waiters are admitted in the order of their arrival: whatever happens,
/// a waiter that stands behind another one does not get the token while
/// the other one is still there, and stays behind it.
pub proof fn lemma_fifo(queue: QueueView, events: Seq<QueueEvent>, first: u64, second: u64)
    requires
        queue.wf(),
        queue.issued + events.len() <= u64::MAX,
        queue.sleep_counter + events.len() <= u64::MAX,
        queue.ahead(first, second),
        stays(events, first),
    ensures
        queue.after_all(events).in_line(first),
        queue.after_all(events).in_line(second) ==> queue.after_all(events).ahead(first, second),
        !queue.after_all(events).leads(second),
    decreases events.len(),
{
    lemma_line(queue);
    if events.len() == 0 {
        let line = queue.line();
        let (i, j) = choose|i: int, j: int|
            0 <= i < j < line.len() && (#[trigger] line[i]).id == first && (#[trigger] line[j]).id
                == second;
        assert(line[0].id != line[j].id);
    } else {
        let before = events.drop_last();
        let middle = queue.after_all(before);
        assert(stays(before, first)) by {
            assert forall|i: int| 0 <= i < before.len() implies #[trigger] before[i]
                != QueueEvent::Released(first) by {
                assert(events[i] != QueueEvent::Released(first));
            }
        }
        assert(events.last() == events[events.len() - 1]);
        lemma_after_all(queue, before);
        lemma_fifo(queue, before, first, second);
        if middle.in_line(second) {
            lemma_fifo_step(middle, events.last(), first, second);
        } else {
            lemma_absent_stays_behind(middle, events.last(), first, second);
        }
    }
}

/// A waiter that is not there yet arrives behind everybody who is.
pub proof fn lemma_absent_stays_behind(
    queue: QueueView,
    event: QueueEvent,
    first: u64,
    second: u64,
)
    requires
        queue.wf(),
        event is Issued ==> queue.issued < u64::MAX,
        event is Slept ==> queue.sleep_counter < u64::MAX,
        queue.in_line(first),
        !queue.in_line(second),
        event != QueueEvent::Released(first),
    ensures
        queue.after(event).in_line(first),
        queue.after(event).in_line(second) ==> queue.after(event).ahead(first, second),
        !queue.after(event).leads(second),
{
    let line = queue.line();
    let next = queue.after(event);
    let after = next.line();
    lemma_after(queue, event);
    lemma_line(queue);
    lemma_line(next);
    let i = choose|i: int| 0 <= i < line.len() && (#[trigger] line[i]).id == first;
    if after == line {
        assert(after[i].id == first);
    } else if exists|w: Waiter| after == line.push(w) {
        assert(after[i].id == first);
        if next.in_line(second) {
            let m = choose|m: int| 0 <= m < after.len() && (#[trigger] after[m]).id == second;
            if m < line.len() {
                assert(line[m].id == second);
            }
            assert(after[m].id == second);
            assert(i < m);
        }
    } else {
        let id = event->Released_0;
        let k = choose|k: int| 0 <= k < line.len() && (#[trigger] line[k]).id == id && after
            == line.remove(k);
        assert(k != i);
        let i1 = if k < i {
            i - 1
        } else {
            i
        };
        assert(after[i1].id == first);
        if next.in_line(second) {
            let m = choose|m: int| 0 <= m < after.len() && (#[trigger] after[m]).id == second;
            let m0 = if m < k {
                m
            } else {
                m + 1
            };
            assert(line[m0].id == second);
        }
    }
    if next.leads(second) {
        assert(after[0].id == second);
        assert(next.in_line(second));
        let (a, b) = choose|a: int, b: int|
            0 <= a < b < after.len() && (#[trigger] after[a]).id == first && (#[trigger] after[b]).id
                == second;
        assert(after[0].id != after[b].id);
    }
}

/// A waiter keeps the count at which it arrived for as long as it does not
/// give up.
pub proof fn lemma_place_kept(queue: QueueView, events: Seq<QueueEvent>, place: Waiter)
    requires
        queue.wf(),
        queue.issued + events.len() <= u64::MAX,
        queue.sleep_counter + events.len() <= u64::MAX,
        queue.line().contains(place),
        stays(events, place.id),
    ensures
        queue.after_all(events).line().contains(place),
    decreases events.len(),
{
    if events.len() > 0 {
        let before = events.drop_last();
        let middle = queue.after_all(before);
        assert(stays(before, place.id)) by {
            assert forall|i: int| 0 <= i < before.len() implies #[trigger] before[i]
                != QueueEvent::Released(place.id) by {
                assert(events[i] != QueueEvent::Released(place.id));
            }
        }
        assert(events.last() == events[events.len() - 1]);
        lemma_after_all(queue, before);
        lemma_place_kept(queue, before, place);
        lemma_after(middle, events.last());
        let line = middle.line();
        let after = middle.after(events.last()).line();
        let i = choose|i: int| 0 <= i < line.len() && line[i] == place;
        if after == line {
        } else if exists|w: Waiter| after == line.push(w) {
            assert(after[i] == place);
        } else {
            let id = events.last()->Released_0;
            let k = choose|k: int| 0 <= k < line.len() && (#[trigger] line[k]).id == id && after
                == line.remove(k);
            assert(k != i);
            assert(after[if k < i {
                i - 1
            } else {
                i
            }] == place);
        }
    }
}

/// The report of throttling is exact. A waiter arrives in a queue, and
/// after some events holds the token, which it never gave up. Then it is
/// reported as throttled if and only if a holder of the token chose to
/// sleep in the course of these events.
pub proof fn lemma_throttle_report(queue: QueueView, id: u64, events: Seq<QueueEvent>)
    requires
        queue.wf(),
        queue.issued + events.len() <= u64::MAX,
        queue.sleep_counter + events.len() <= u64::MAX,
        queue.state_of(id) == WaiterState::Detached,
        id < queue.issued,
        stays(events, id),
        queue.polled(id).after_all(events).is_holder(id),
    ensures
        queue.polled(id).after_all(events).throttled(id) <==> queue.polled(id).sleeps(events) > 0,
{
    let arrived = queue.polled(id);
    let place = Waiter { id, start_count: queue.sleep_counter };
    let end = arrived.after_all(events);
    lemma_after(queue, QueueEvent::Polled(id));
    lemma_line(queue);
    assert(arrived.line().contains(place)) by {
        let line = arrived.line();
        assert(line == queue.line().push(place));
        assert(line[line.len() - 1] == place);
    }
    lemma_after_all(arrived, events);
    lemma_place_kept(arrived, events, place);
    lemma_line(end);
    let line = end.line();
    let i = choose|i: int| 0 <= i < line.len() && line[i] == place;
    assert(line[i].id == line[0].id);
    assert(i == 0);
}

/// To the line, a turn at acquiring tokens is a sleep of the holder, or
/// nothing at all.
pub proof fn lemma_acquire_is_a_sleep_or_nothing(
    limiter: RateLimiterView,
    id: u64,
    start: u64,
    now: u64,
    count: u64,
)
    ensures
        ({
            let after = limiter.acquired(id, start, now, count);
            ||| after.queue == limiter.queue
            ||| after.queue == limiter.queue.after(QueueEvent::Slept(id))
        }),
        limiter.acquired(id, start, now, count).config == limiter.config,
{
}

/// Nobody is admitted out of turn. A waiter stands behind another one,
/// which does not give up. Then, whatever happens in the line, a turn of
/// the waiter behind is refused and leaves the bucket as it is, at any
/// instant and for any count.
pub proof fn lemma_no_admission_out_of_turn(
    limiter: RateLimiterView,
    events: Seq<QueueEvent>,
    first: u64,
    second: u64,
    start: u64,
    now: u64,
    count: u64,
)
    requires
        limiter.queue.wf(),
        limiter.queue.issued + events.len() <= u64::MAX,
        limiter.queue.sleep_counter + events.len() <= u64::MAX,
        limiter.queue.ahead(first, second),
        stays(events, first),
    ensures
        ({
            let later = RateLimiterView { queue: limiter.queue.after_all(events), ..limiter };
            &&& later.acquire_result(second, start, now, count) == Acquire::NotLeader
            &&& later.acquired(second, start, now, count) == later
        }),
{
    lemma_fifo(limiter.queue, events, first, second);
}

/// The turn that completes a call reports throttling exactly. A waiter
/// arrives, never gives up, and after some events in the line holds the
/// token and has its tokens admitted. Then the turn reports the waiter as
/// throttled if and only if a holder of the token chose to sleep in the
/// course of these events.
pub proof fn lemma_acquire_reports_sleeps(
    limiter: RateLimiterView,
    id: u64,
    events: Seq<QueueEvent>,
    start: u64,
    now: u64,
    count: u64,
)
    requires
        limiter.queue.wf(),
        limiter.queue.issued + events.len() <= u64::MAX,
        limiter.queue.sleep_counter + events.len() <= u64::MAX,
        limiter.queue.state_of(id) == WaiterState::Detached,
        id < limiter.queue.issued,
        stays(events, id),
    ensures
        ({
            let arrived = limiter.queue.polled(id);
            let later = RateLimiterView { queue: arrived.after_all(events), ..limiter };
            later.acquire_result(id, start, now, count) matches Acquire::Done { throttled }
                ==> (throttled <==> arrived.sleeps(events) > 0)
        }),
{
    let arrived = limiter.queue.polled(id);
    if arrived.after_all(events).is_holder(id) {
        lemma_throttle_report(limiter.queue, id, events);
    }
}

} // verus!
