//! The line of waiters in front of the bucket, and the token that makes one
//! of them the leader.
//!
//! There is one token. Whoever holds it may work on the bucket; everybody
//! else waits in the order of arrival. When the leader leaves, the token is
//! handed to the head of the line, or put back where nobody waits. A waiter
//! that is handed the token is *elected*; it *holds* the token once it has
//! been polled again. The queue only decides: who is to be woken is
//! returned to the caller.

use vstd::prelude::*;
use std::collections::VecDeque;
use crate::leaky_bucket::fairness::{QueueEvent, lemma_after};

verus! {

/// The capability to work on the bucket. There is at most one.
#[derive(Debug)]
pub struct RateToken;

/// A place in the line.
#[derive(Debug, Clone, Copy, PartialEq, Eq)]
pub struct Waiter {
    /// Which waiter it is.
    pub id: u64,
    /// The sleep counter at the time the waiter arrived.
    pub start_count: u64,
}

/// Where a waiter stands.
#[derive(Debug, Clone, Copy, PartialEq, Eq)]
pub enum WaiterState {
    /// Not in the line: not polled yet, or gone.
    Detached,
    /// In the line, behind everybody who arrived earlier.
    Linked,
    /// Handed the token by the previous leader, not polled since.
    Elected,
    /// Holding the token.
    Holding,
}

/// The handle of one waiter. It cannot be copied: whoever owns it is the waiter.
#[derive(Debug)]
pub struct Enqueued {
    waiter: u64,
}

/// The line and the token.
#[derive(Debug)]
pub struct Queue {
    sleep_counter: u64,
    queue: VecDeque<Waiter>,
    token: Option<RateToken>,
    elected: Option<Waiter>,
    holder: Option<Waiter>,
    issued: u64,
}

/// A queue as a value of specifications.
pub struct QueueView {
    /// How often a leader chose to sleep.
    pub sleep_counter: u64,
    /// The waiters in the line, in the order of arrival.
    pub queue: Seq<Waiter>,
    /// Whether the token lies in the queue, free to be taken.
    pub token: bool,
    /// The waiter that was handed the token and was not polled since.
    pub elected: Option<Waiter>,
    /// The waiter that holds the token.
    pub holder: Option<Waiter>,
    /// How many handles were given out. They are numbered from zero.
    pub issued: u64,
}

impl QueueView {
    /// Whether `id` waits in the line.
    pub open spec fn is_queued(self, id: u64) -> bool {
        exists|i: int| 0 <= i < self.queue.len() && (#[trigger] self.queue[i]).id == id
    }

    /// Where in the line `id` waits.
    pub open spec fn index_of(self, id: u64) -> int {
        choose|i: int| 0 <= i < self.queue.len() && (#[trigger] self.queue[i]).id == id
    }

    pub open spec fn is_elected(self, id: u64) -> bool {
        self.elected matches Some(w) && w.id == id
    }

    pub open spec fn is_holder(self, id: u64) -> bool {
        self.holder matches Some(w) && w.id == id
    }

    /// Where `id` stands.
    pub open spec fn state_of(self, id: u64) -> WaiterState {
        if self.is_holder(id) {
            WaiterState::Holding
        } else if self.is_elected(id) {
            WaiterState::Elected
        } else if self.is_queued(id) {
            WaiterState::Linked
        } else {
            WaiterState::Detached
        }
    }

    /// The token is in exactly one place: free in the queue, with an
    /// elected waiter, or with the holder.
    pub open spec fn one_token(self) -> bool {
        (if self.token {
            1int
        } else {
            0int
        }) + (if self.elected is Some {
            1int
        } else {
            0int
        }) + (if self.holder is Some {
            1int
        } else {
            0int
        }) == 1
    }

    /// What holds of every queue: there is one token; no waiter is in the
    /// line twice, or in the line while it has the token; nobody waits
    /// while the token is free; every waiter had its handle given out,
    /// and arrived at a count that the counter has reached.
    pub open spec fn wf(self) -> bool {
        &&& self.one_token()
        &&& forall|i: int, j: int|
            0 <= i < j < self.queue.len() ==> (#[trigger] self.queue[i]).id != (
            #[trigger] self.queue[j]).id
        &&& forall|i: int|
            0 <= i < self.queue.len() ==> (#[trigger] self.queue[i]).id < self.issued
                && self.queue[i].start_count <= self.sleep_counter
        &&& self.elected matches Some(w) ==> !self.is_queued(w.id) && w.id < self.issued
            && w.start_count <= self.sleep_counter
        &&& self.holder matches Some(w) ==> !self.is_queued(w.id) && w.id < self.issued
            && w.start_count <= self.sleep_counter
        &&& self.token ==> self.queue.len() == 0
    }

    /// The queue that nobody has come to yet.
    pub open spec fn new() -> Self {
        QueueView {
            sleep_counter: 0,
            queue: Seq::empty(),
            token: true,
            elected: None,
            holder: None,
            issued: 0,
        }
    }

    /// The queue after one more handle was given out.
    pub open spec fn issued_one(self) -> Self {
        QueueView { issued: (self.issued + 1) as u64, ..self }
    }

    /// The queue after `id` was polled. A waiter that is not in the line
    /// takes the token where it is free and joins the end of the line
    /// otherwise. An elected waiter takes hold of the token. For a waiter
    /// in the line, for the holder, and for a handle that this queue never
    /// gave out, nothing changes.
    pub open spec fn polled(self, id: u64) -> Self {
        match self.state_of(id) {
            WaiterState::Holding | WaiterState::Linked => self,
            WaiterState::Elected => QueueView { elected: None, holder: self.elected, ..self },
            WaiterState::Detached => {
                let arrived = Waiter { id, start_count: self.sleep_counter };
                if id >= self.issued {
                    self
                } else if self.token {
                    QueueView { token: false, holder: Some(arrived), ..self }
                } else {
                    QueueView { queue: self.queue.push(arrived), ..self }
                }
            },
        }
    }

    /// What the poll of `id` answers: the count at which `id` arrived, if
    /// `id` holds the token after the poll.
    pub open spec fn poll_result(self, id: u64) -> Option<u64> {
        match self.polled(id).holder {
            Some(w) if w.id == id => Some(w.start_count),
            _ => None,
        }
    }

    /// The queue after the token, which nobody has, went to the head of
    /// the line, or back into the queue where nobody waits.
    pub open spec fn handed_off(self) -> Self {
        if self.queue.len() > 0 {
            QueueView { elected: Some(self.queue[0]), queue: self.queue.drop_first(), ..self }
        } else {
            QueueView { token: true, ..self }
        }
    }

    /// The queue after `id` gave up whatever it had: its place in the
    /// line, or the token, which is handed off.
    pub open spec fn released(self, id: u64) -> Self {
        match self.state_of(id) {
            WaiterState::Holding => QueueView { holder: None, ..self }.handed_off(),
            WaiterState::Elected => QueueView { elected: None, ..self }.handed_off(),
            WaiterState::Linked => QueueView {
                queue: self.queue.remove(self.index_of(id)),
                ..self
            },
            WaiterState::Detached => self,
        }
    }

    /// Whom the release of `id` elects, and who is therefore to be woken.
    pub open spec fn woken_by_release(self, id: u64) -> Option<u64> {
        if (self.is_holder(id) || self.is_elected(id)) && self.queue.len() > 0 {
            Some(self.queue[0].id)
        } else {
            None
        }
    }

    /// The queue after the holder `id` chose to sleep.
    pub open spec fn slept(self, id: u64) -> Self {
        if self.is_holder(id) {
            QueueView { sleep_counter: (self.sleep_counter + 1) as u64, ..self }
        } else {
            self
        }
    }

    /// Whether the holder `id` saw a sleep since it arrived.
    pub open spec fn throttled(self, id: u64) -> bool {
        self.holder matches Some(w) && w.id == id && w.start_count < self.sleep_counter
    }
}

impl View for Queue {
    type V = QueueView;

    closed spec fn view(&self) -> QueueView {
        QueueView {
            sleep_counter: self.sleep_counter,
            queue: self.queue@,
            token: self.token is Some,
            elected: self.elected,
            holder: self.holder,
            issued: self.issued,
        }
    }
}

impl Enqueued {
    /// Which waiter the handle stands for.
    pub closed spec fn spec_id(&self) -> u64 {
        self.waiter
    }

    #[verifier::when_used_as_spec(spec_id)]
    pub fn id(&self) -> (id: u64)
        ensures
            id == self.spec_id(),
    {
        self.waiter
    }
}

impl Queue {
    /// A queue with a free token and nobody waiting.
    pub fn new() -> (queue: Self)
        ensures
            queue@ == QueueView::new(),
            queue@.wf(),
    {
        let queue = Queue {
            sleep_counter: 0,
            queue: VecDeque::new(),
            token: Some(RateToken),
            elected: None,
            holder: None,
            issued: 0,
        };
        assert(queue@.queue =~= Seq::<Waiter>::empty());
        queue
    }

    /// Gives out the handle of a new waiter. The waiter joins the line
    /// when it is first polled.
    pub fn wait(&mut self) -> (entry: Enqueued)
        requires
            old(self)@.wf(),
            old(self)@.issued < u64::MAX,
        ensures
            final(self)@ == old(self)@.issued_one(),
            final(self)@.wf(),
            entry.id() == old(self)@.issued,
            old(self)@.state_of(entry.id()) == WaiterState::Detached,
    {
        proof {
            lemma_after(self@, QueueEvent::Issued);
            if self@.is_queued(self.issued) {
                let i = self@.index_of(self.issued);
                assert(self@.queue[i].id < self.issued);
            }
        }
        let waiter = self.issued;
        self.issued = self.issued + 1;
        Enqueued { waiter }
    }

    /// The place of `id` in the line.
    fn position(&self, id: u64) -> (found: Option<usize>)
        requires
            self@.wf(),
        ensures
            match found {
                Some(i) => i < self@.queue.len() && self@.queue[i as int].id == id
                    && self@.index_of(id) == i,
                None => !self@.is_queued(id),
            },
    {
        let mut i: usize = 0;
        while i < self.queue.len()
            invariant
                self@.wf(),
                i <= self.queue@.len(),
                forall|k: int| 0 <= k < i ==> (#[trigger] self.queue@[k]).id != id,
            decreases self.queue@.len() - i,
        {
            if self.queue[i].id == id {
                proof {
                    assert(self@.queue[i as int].id == id);
                    let j = self@.index_of(id);
                    assert(self@.queue[j].id == id);
                    if j < i {
                        assert(self@.queue[j].id != self@.queue[i as int].id);
                    }
                    if i < j {
                        assert(self@.queue[i as int].id != self@.queue[j].id);
                    }
                }
                return Some(i);
            }
            i = i + 1;
        }
        None
    }

    /// Where the waiter of `entry` stands.
    pub fn state_of(&self, entry: &Enqueued) -> (state: WaiterState)
        requires
            self@.wf(),
        ensures
            state == self@.state_of(entry.id()),
    {
        let id = entry.waiter;
        match self.holder {
            Some(w) => {
                if w.id == id {
                    return WaiterState::Holding;
                }
            },
            None => {},
        }
        match self.elected {
            Some(w) => {
                if w.id == id {
                    return WaiterState::Elected;
                }
            },
            None => {},
        }
        match self.position(id) {
            Some(_) => WaiterState::Linked,
            None => WaiterState::Detached,
        }
    }

    /// Polls the waiter of `entry`. The answer is the sleep count at which
    /// the waiter arrived, once the waiter holds the token.
    ///
    /// At the first poll the waiter takes the token where it is free, and
    /// otherwise joins the end of the line. A waiter that was elected in
    /// the meantime takes hold of the token.
    pub fn poll(&mut self, entry: &Enqueued) -> (start_count: Option<u64>)
        requires
            old(self)@.wf(),
        ensures
            final(self)@ == old(self)@.polled(entry.id()),
            final(self)@.wf(),
            start_count == old(self)@.poll_result(entry.id()),
    {
        let id = entry.waiter;
        proof {
            lemma_after(self@, QueueEvent::Polled(id));
        }
        match self.state_of(entry) {
            WaiterState::Holding => {
                match self.holder {
                    Some(w) => Some(w.start_count),
                    None => None,
                }
            },
            WaiterState::Linked => None,
            WaiterState::Elected => {
                // we were removed from the line: we are the new leader
                let elected = self.elected.take();
                self.holder = elected;
                match self.holder {
                    Some(w) => Some(w.start_count),
                    None => None,
                }
            },
            WaiterState::Detached => {
                if id >= self.issued {
                    return None;
                }
                let start_count = self.sleep_counter;
                let arrived = Waiter { id, start_count };
                match self.token.take() {
                    Some(_token) => {
                        // nobody is in the line, and the token is free
                        self.holder = Some(arrived);
                        Some(start_count)
                    },
                    None => {
                        // we join the end of the line
                        self.queue.push_back(arrived);
                        None
                    },
                }
            },
        }
    }

    /// Hands the token, which nobody has, to the head of the line, or puts
    /// it back where nobody waits.
    fn hand_off(&mut self) -> (woken: Option<u64>)
        requires
            old(self).token is None,
        ensures
            final(self)@ == old(self)@.handed_off(),
            woken == if old(self)@.queue.len() > 0 {
                Some(old(self)@.queue[0].id)
            } else {
                None
            },
    {
        match self.queue.pop_front() {
            Some(next) => {
                // the next leader
                self.elected = Some(next);
                assert(self@.queue == old(self)@.queue.drop_first());
                Some(next.id)
            },
            None => {
                // nobody is left in the line: the token is free
                self.token = Some(RateToken);
                None
            },
        }
    }

    /// Gives up whatever the waiter of `entry` has. A waiter in the line
    /// leaves the line. An elected waiter and the holder pass the token on:
    /// to the head of the line, which is returned and has to be woken, or
    /// back into the queue where nobody waits.
    pub fn release(&mut self, entry: Enqueued) -> (woken: Option<u64>)
        requires
            old(self)@.wf(),
        ensures
            final(self)@ == old(self)@.released(entry.id()),
            final(self)@.wf(),
            woken == old(self)@.woken_by_release(entry.id()),
    {
        let id = entry.waiter;
        proof {
            lemma_after(self@, QueueEvent::Released(id));
        }
        match self.state_of(&entry) {
            WaiterState::Holding => {
                self.holder = None;
                self.hand_off()
            },
            WaiterState::Elected => {
                self.elected = None;
                self.hand_off()
            },
            WaiterState::Linked => {
                match self.position(id) {
                    Some(i) => {
                        self.queue.remove(i);
                        assert(self@.queue == old(self)@.queue.remove(i as int));
                    },
                    None => {},
                }
                None
            },
            WaiterState::Detached => None,
        }
    }

    /// Counts that the holder chose to sleep instead of completing.
    /// For everybody else nothing changes.
    pub fn record_sleep(&mut self, entry: &Enqueued)
        requires
            old(self)@.wf(),
            old(self)@.sleep_counter < u64::MAX,
        ensures
            final(self)@ == old(self)@.slept(entry.id()),
            final(self)@.wf(),
    {
        proof {
            lemma_after(self@, QueueEvent::Slept(entry.id()));
        }
        match self.holder {
            Some(w) => {
                if w.id == entry.waiter {
                    self.sleep_counter = self.sleep_counter + 1;
                }
            },
            None => {},
        }
    }

    /// Whether a sleep was counted since the holder arrived. `false` for
    /// everybody but the holder.
    pub fn throttled(&self, entry: &Enqueued) -> (throttled: bool)
        ensures
            throttled == self@.throttled(entry.id()),
    {
        match self.holder {
            Some(w) => w.id == entry.waiter && w.start_count < self.sleep_counter,
            None => false,
        }
    }

    /// How often a leader chose to sleep.
    pub fn sleep_counter(&self) -> (count: u64)
        ensures
            count == self@.sleep_counter,
    {
        self.sleep_counter
    }

    /// How many handles were given out.
    pub fn issued(&self) -> (issued: u64)
        ensures
            issued == self@.issued,
    {
        self.issued
    }

    /// How many waiters are in the line.
    pub fn len(&self) -> (len: usize)
        ensures
            len == self@.queue.len(),
    {
        self.queue.len()
    }
}

} // verus!
