use vstd::prelude::*;

use crate::node::{Header, MessageContent, NodeThread};
use crate::units::Time;

verus! {

/// What the simulation does when an event comes due.
#[derive(Clone, Copy, Debug, PartialEq, Eq, Structural)]
pub enum SimAction {
    GenerateMessage { node_id: usize, message_id: usize },
    SendMessage { node_id: usize, header: Header, message_content: MessageContent },
    RecieveMessage { node_id: usize, transmission_id: u32 },
    MaybeNotify { node_id: usize, on_thread: NodeThread },
}

/// An action due at a time.
#[derive(Clone, Copy, Debug, PartialEq, Eq, Structural)]
pub struct SimEvent {
    pub time: Time,
    pub action: SimAction,
}

/// An event with its place in the order of pushes.
#[derive(Clone, Copy, Debug, PartialEq, Eq, Structural)]
pub struct QueuedEvent {
    pub event: SimEvent,
    pub seq: u64,
}

/// `a` comes out before `b`: earlier, or as early and pushed first.
pub open spec fn precedes(a: QueuedEvent, b: QueuedEvent) -> bool {
    a.event.time@ < b.event.time@ || (a.event.time@ == b.event.time@ && a.seq <= b.seq)
}

/// The `k`-th queued event precedes all others.
pub open spec fn is_first(q: Seq<QueuedEvent>, k: int) -> bool {
    0 <= k < q.len() && forall|j: int| 0 <= j < q.len() ==> precedes(q[k], q[j])
}

/// Pending events, taken out earliest first, and in the order they were
/// pushed among events due at the same time.
pub struct EventQueue {
    pub events: Vec<QueuedEvent>,
    pub next_seq: u64,
}

impl EventQueue {
    pub open spec fn view(&self) -> Seq<QueuedEvent> {
        self.events@
    }

    /// Every queued event was numbered before `next_seq`, each with its own number.
    pub open spec fn wf(&self) -> bool {
        &&& forall|i: int| 0 <= i < self@.len() ==> self@[i].seq < self.next_seq
        &&& forall|i: int, j: int|
            0 <= i < self@.len() && 0 <= j < self@.len() && i != j ==> self@[i].seq != self@[j].seq
    }

    pub fn new() -> (r: EventQueue)
        ensures
            r@.len() == 0,
            r.next_seq == 0,
            r.wf(),
    {
        EventQueue { events: Vec::new(), next_seq: 0 }
    }

    pub fn len(&self) -> (r: usize)
        ensures
            r == self@.len(),
    {
        self.events.len()
    }

    pub fn is_empty(&self) -> (r: bool)
        ensures
            r == (self@.len() == 0),
    {
        self.events.len() == 0
    }

    /// Queues `event`; refused, with nothing changed, only once all
    /// `u64::MAX` sequence numbers have been used.
    pub fn push(&mut self, event: SimEvent) -> (r: bool)
        requires
            old(self).wf(),
        ensures
            final(self).wf(),
            r == (old(self).next_seq < u64::MAX),
            r ==> final(self)@ == old(self)@.push(QueuedEvent { event, seq: old(self).next_seq })
                && final(self).next_seq == old(self).next_seq + 1,
            !r ==> *final(self) == *old(self),
    {
        if self.next_seq == u64::MAX {
            return false;
        }
        let q = QueuedEvent { event, seq: self.next_seq };
        self.events.push(q);
        self.next_seq = self.next_seq + 1;
        true
    }

    /// Removes every pending event.
    pub fn clear(&mut self)
        requires
            old(self).wf(),
        ensures
            final(self).wf(),
            final(self)@.len() == 0,
            final(self).next_seq == old(self).next_seq,
    {
        self.events.clear();
    }

    /// Takes out the event that precedes all others.
    pub fn pop(&mut self) -> (r: Option<SimEvent>)
        requires
            old(self).wf(),
        ensures
            final(self).wf(),
            final(self).next_seq == old(self).next_seq,
            old(self)@.len() == 0 ==> r is None && final(self)@ == old(self)@,
            old(self)@.len() > 0 ==> exists|k: int|
                0 <= k < old(self)@.len() && r == Some(old(self)@[k].event) && final(self)@ == old(self)@.remove(k) && forall|j: int|
                    0 <= j < old(self)@.len() ==> precedes(old(self)@[k], old(self)@[j]),
    {
        if self.events.len() == 0 {
            return None;
        }
        let mut best: usize = 0;
        let mut i: usize = 1;
        while i < self.events.len()
            invariant
                1 <= i <= self@.len(),
                best < i,
                *self == *old(self),
                forall|j: int| 0 <= j < i ==> precedes(self@[best as int], self@[j]),
            decreases self@.len() - i,
        {
            let b = self.events[best];
            let c = self.events[i];
            if c.event.time.micros < b.event.time.micros || (c.event.time.micros
                == b.event.time.micros && c.seq < b.seq) {
                best = i;
            }
            i += 1;
        }
        let ghost s = self@;
        let q = self.events.remove(best);
        proof {
            assert forall|a: int| 0 <= a < self@.len() implies self@[a].seq < self.next_seq by {
                if a < best {
                    assert(self@[a] == s[a]);
                } else {
                    assert(self@[a] == s[a + 1]);
                }
            }
            assert forall|a: int, b: int|
                0 <= a < self@.len() && 0 <= b < self@.len() && a != b implies self@[a].seq
                != self@[b].seq by {
                let ma = if a < best { a } else { a + 1 };
                let mb = if b < best { b } else { b + 1 };
                assert(self@[a] == s[ma]);
                assert(self@[b] == s[mb]);
            }
        }
        Some(q.event)
    }

    /// Time of the event that would come out next.
    pub fn peek_time(&self) -> (r: Option<Time>)
        ensures
            self@.len() == 0 ==> r is None,
            self@.len() > 0 ==> exists|k: int|
                0 <= k < self@.len() && r == Some(self@[k].event.time) && forall|j: int|
                    0 <= j < self@.len() ==> self@[k].event.time@ <= self@[j].event.time@,
    {
        if self.events.len() == 0 {
            return None;
        }
        let mut best: usize = 0;
        let mut i: usize = 1;
        while i < self.events.len()
            invariant
                1 <= i <= self@.len(),
                best < i,
                forall|j: int| 0 <= j < i ==> self@[best as int].event.time@ <= self@[j].event.time@,
            decreases self@.len() - i,
        {
            if self.events[i].event.time.micros < self.events[best].event.time.micros {
                best = i;
            }
            i += 1;
        }
        Some(self.events[best].event.time)
    }
}

/// Which event comes out next is determined by the queue alone: two events
/// that each precede all others are the same one, as pushes are numbered
/// apart and ties in time go to the earlier push.
pub proof fn lemma_next_event_unique(q: EventQueue, k1: int, k2: int)
    requires
        q.wf(),
        0 <= k1 < q@.len(),
        0 <= k2 < q@.len(),
        forall|j: int| 0 <= j < q@.len() ==> precedes(q@[k1], q@[j]),
        forall|j: int| 0 <= j < q@.len() ==> precedes(q@[k2], q@[j]),
    ensures
        k1 == k2,
{
    assert(precedes(q@[k1], q@[k2]));
    assert(precedes(q@[k2], q@[k1]));
}

} // verus!
