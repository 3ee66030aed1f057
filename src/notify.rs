use vstd::prelude::*;

use crate::node::{NodeThread, Notification};
use crate::units::Time;

verus! {

/// A simulated thread's pending wake-up, if any, and when it was set for.
#[derive(Clone, Copy, Debug, PartialEq, Eq, Structural)]
pub struct NotifyStatus {
    pub notification: Option<Notification>,
    pub at_time: Time,
}

/// One node's simulated threads; a thread is registered where its entry is `Some`.
#[derive(Clone, Copy, Debug, PartialEq, Eq, Structural)]
pub struct NotifyTable {
    pub radio: Option<NotifyStatus>,
    pub routing: Option<NotifyStatus>,
    pub cache: Option<NotifyStatus>,
}

impl NotifyTable {
    pub open spec fn entry(self, thread: NodeThread) -> Option<NotifyStatus> {
        match thread {
            NodeThread::RadioThread => self.radio,
            NodeThread::RoutingThread => self.routing,
            NodeThread::CacheThread => self.cache,
        }
    }

    /// The table with `thread`'s entry replaced by `e`.
    pub open spec fn with_entry(self, thread: NodeThread, e: Option<NotifyStatus>) -> NotifyTable {
        match thread {
            NodeThread::RadioThread => NotifyTable { radio: e, ..self },
            NodeThread::RoutingThread => NotifyTable { routing: e, ..self },
            NodeThread::CacheThread => NotifyTable { cache: e, ..self },
        }
    }

    /// No thread registered.
    pub fn new() -> (r: NotifyTable)
        ensures
            r.radio is None && r.routing is None && r.cache is None,
    {
        NotifyTable { radio: None, routing: None, cache: None }
    }

    fn get(&self, thread: NodeThread) -> (r: Option<NotifyStatus>)
        ensures
            r == self.entry(thread),
    {
        match thread {
            NodeThread::RadioThread => self.radio,
            NodeThread::RoutingThread => self.routing,
            NodeThread::CacheThread => self.cache,
        }
    }

    fn set(&mut self, thread: NodeThread, e: Option<NotifyStatus>)
        ensures
            *final(self) == old(self).with_entry(thread, e),
    {
        match thread {
            NodeThread::RadioThread => self.radio = e,
            NodeThread::RoutingThread => self.routing = e,
            NodeThread::CacheThread => self.cache = e,
        }
    }

    /// Registers `thread` with nothing pending.
    pub fn register_thread(&mut self, thread: NodeThread)
        ensures
            *final(self) == old(self).with_entry(
                thread,
                Some(NotifyStatus { notification: None, at_time: Time { micros: 0 } }),
            ),
    {
        self.set(thread, Some(NotifyStatus { notification: None, at_time: Time { micros: 0 } }));
    }

    /// Asks for `notification` on `thread` after `delay`. It is set where the
    /// caller overrides, or the pending one's time has passed, or none is
    /// pending; then the time it is due is returned, at which the caller
    /// schedules a wake-up. Otherwise nothing changes and `None` is returned.
    pub fn notify_later(
        &mut self,
        now: Time,
        delay: Time,
        notification: Notification,
        thread: NodeThread,
        should_override: bool,
    ) -> (r: Option<Time>)
        requires
            old(self).entry(thread) is Some,
            now@ + delay@ <= u64::MAX,
        ensures
            ({
                let st = old(self).entry(thread)->Some_0;
                let fire = should_override || st.at_time@ < now@ || st.notification is None;
                &&& fire ==> r == Some(Time { micros: (now@ + delay@) as u64 }) && *final(self)
                    == old(self).with_entry(
                    thread,
                    Some(
                        NotifyStatus {
                            notification: Some(notification),
                            at_time: Time { micros: (now@ + delay@) as u64 },
                        },
                    ),
                )
                &&& !fire ==> r is None && *final(self) == *old(self)
            }),
    {
        let st = match self.get(thread) {
            Some(st) => st,
            None => {
                return None;
            },
        };
        if should_override || st.at_time.micros < now.micros || st.notification.is_none() {
            let at = Time { micros: now.micros + delay.micros };
            self.set(thread, Some(NotifyStatus { notification: Some(notification), at_time: at }));
            Some(at)
        } else {
            None
        }
    }

    /// A wake-up for `thread` has come due at `now`: where it is still the
    /// live one (set for `now`, with a notification pending), clears it and
    /// returns the notification to deliver; otherwise it was overridden and
    /// nothing changes.
    pub fn take_due(&mut self, thread: NodeThread, now: Time) -> (r: Option<Notification>)
        ensures
            ({
                let e = old(self).entry(thread);
                let live = e matches Some(st) && st.at_time == now && st.notification is Some;
                &&& live ==> r == e->Some_0.notification && *final(self) == old(self).with_entry(
                    thread,
                    Some(NotifyStatus { notification: None, at_time: now }),
                )
                &&& !live ==> r is None && *final(self) == *old(self)
            }),
    {
        match self.get(thread) {
            Some(st) => {
                if st.at_time.micros == now.micros && st.notification.is_some() {
                    self.set(thread, Some(NotifyStatus { notification: None, at_time: now }));
                    st.notification
                } else {
                    None
                }
            },
            None => None,
        }
    }
}

} // verus!
