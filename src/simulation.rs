use vstd::prelude::*;

use crate::analysis::{LogContent, LogItem, LogLevel, LogSource};
use crate::em::{no_self_overlap, sorted_by_end, started_by, EmField, Transmission};
use crate::events::{EventQueue, QueuedEvent, SimAction, SimEvent};
use crate::lora::{air_time_micros, lemma_air_time_bounds, valid_sf};
use crate::node::{Header, MessageContent, MessageInfo, NodeError, NodeThread, Notification, HEADER_SIZE};
use crate::node_location::NodeLocation;
use crate::scenario::{ScenarioMessage, ScenarioNodeSettings};
use crate::notify::NotifyTable;
use crate::radio::{backoff_delay, backoff_ok, RadioAction, RadioInterface, StoredPacket};
use crate::rng::SimRng;
use crate::settings::NodeSettings;
use crate::units::{Db, Time};
use crate::capture::{powers_in_range, reception_at, reception_spec, TransmissionResult};
use crate::settings::NodeUpdateError;

verus! {

/// Nothing happens from four hours of simulated time on.
pub const SIM_END_MICROS: u64 = 14_400_000_000;

/// Largest user message, in bytes.
pub const MAX_MESSAGE_SIZE: i32 = 65_535;

/// Settings the simulation accepts for a node.
pub open spec fn settings_ok(s: NodeSettings) -> bool {
    &&& valid_sf(s.sf as int)
    &&& 4 <= s.coding_rate <= 1000
    &&& 1 <= s.bandwidth@ <= 1_000_000_000
}

/// Size in bytes of what a transmission carries: the user message's size, 8
/// for a node's own payload, nothing for an empty one.
pub open spec fn content_size(messages: Seq<MessageInfo>, c: MessageContent) -> int {
    match c {
        MessageContent::GeneratedMessage(id) => messages[id as int].size as int,
        MessageContent::NodeMessage(_) => 8,
        MessageContent::Empty => 0,
    }
}

pub open spec fn content_ok(messages: Seq<MessageInfo>, c: MessageContent) -> bool {
    c matches MessageContent::GeneratedMessage(id) ==> id < messages.len()
}

/// The sends that `logs` record, in log order, as (sender, transmission id).
pub open spec fn sent_pairs(logs: Seq<LogItem>) -> Seq<(usize, u32)>
    decreases logs.len(),
{
    if logs.len() == 0 {
        Seq::empty()
    } else {
        let rest = sent_pairs(logs.drop_last());
        match logs.last().content {
            LogContent::TransmissionSent { sender_id, transmission_id } => rest.push(
                (sender_id, transmission_id),
            ),
            _ => rest,
        }
    }
}

/// The field holds transmission `tid`, which ends at `at` and reaches `node`.
pub open spec fn delivers(topology: NodeLocation, field: Seq<Transmission>, tid: u32, node: usize, at: int) -> bool {
    exists|i: int|
        0 <= i < field.len() && field[i].id == tid && field[i].end_time@ == at
            && topology.is_adjacent(field[i].transmitter_id, node)
}

/// A reception log names a transmission of the field that reaches the
/// receiver and ends when the entry was made.
pub open spec fn received_log_ok(topology: NodeLocation, field: Seq<Transmission>, item: LogItem) -> bool {
    match item.content {
        LogContent::TransmissionReceived { receiver_id, transmission_id } => delivers(
            topology,
            field,
            transmission_id,
            receiver_id,
            item.time@,
        ),
        _ => true,
    }
}

/// `delay` after `now`, or the last representable time.
pub open spec fn later_spec(now: int, delay: int) -> int {
    if now + delay <= u64::MAX {
        now + delay
    } else {
        u64::MAX as int
    }
}

/// Transmission `tid` still reaches `node` at `at` once `t` is added to the field.
pub proof fn lemma_delivers_insert(
    topology: NodeLocation,
    field: Seq<Transmission>,
    p: int,
    t: Transmission,
    tid: u32,
    node: usize,
    at: int,
)
    requires
        0 <= p <= field.len(),
        delivers(topology, field, tid, node, at),
    ensures
        delivers(topology, field.insert(p, t), tid, node, at),
{
    let i = choose|i: int|
        0 <= i < field.len() && field[i].id == tid && field[i].end_time@ == at
            && topology.is_adjacent(field[i].transmitter_id, node);
    let g = field.insert(p, t);
    if i < p {
        assert(g[i] == field[i]);
    } else {
        assert(g[i + 1] == field[i]);
    }
}

/// `new` is `old` after asking for `notification` on `thread` of `node_id`
/// after `delay`: it is set, and its wake-up queued (while sequence numbers
/// last), where the caller overrides, or the pending one's time has passed,
/// or none is pending; otherwise nothing changes.
pub open spec fn notified(
    old: Simulation,
    new: Simulation,
    node_id: usize,
    delay: int,
    notification: Notification,
    thread: NodeThread,
    should_override: bool,
) -> bool {
    let table = old.notify_status@[node_id as int];
    let st = table.entry(thread)->Some_0;
    let fire = should_override || st.at_time@ < old.sim_time@ || st.notification is None;
    let at = Time { micros: later_spec(old.sim_time@, delay) as u64 };
    &&& fire ==> new.notify_status@ == old.notify_status@.update(
        node_id as int,
        table.with_entry(
            thread,
            Some(crate::notify::NotifyStatus { notification: Some(notification), at_time: at }),
        ),
    )
    &&& fire && old.event_queue.next_seq < u64::MAX ==> new.event_queue@ == old.event_queue@.push(
        (QueuedEvent {
            event: SimEvent { time: at, action: SimAction::MaybeNotify { node_id, on_thread: thread } },
            seq: old.event_queue.next_seq,
        }),
    )
    &&& fire && old.event_queue.next_seq == u64::MAX ==> new.event_queue@ == old.event_queue@
    &&& !fire ==> new.notify_status@ == old.notify_status@ && new.event_queue@ == old.event_queue@
}

/// The SNR a queued packet's backoff goes by: the one it was heard at, where
/// the library can handle it.
pub open spec fn usable_snr(p: StoredPacket) -> Option<Db> {
    match p.snr {
        Some(x) => if x.in_range() {
            Some(x)
        } else {
            None
        },
        None => None,
    }
}

/// Some event from position `from` on is `node`'s reception of `t` at its end.
pub open spec fn gets_reception(q: Seq<QueuedEvent>, from: int, node: usize, t: Transmission) -> bool {
    exists|k: int|
        from <= k < q.len() && q[k].event == (SimEvent {
            time: t.end_time,
            action: SimAction::RecieveMessage { node_id: node, transmission_id: t.id },
        })
}

/// A queued reception is due when its transmission ends, at a node it reaches.
pub open spec fn reception_due(topology: NodeLocation, field: Seq<Transmission>, e: SimEvent) -> bool {
    match e.action {
        SimAction::RecieveMessage { node_id, transmission_id } => delivers(
            topology,
            field,
            transmission_id,
            node_id,
            e.time@,
        ),
        _ => true,
    }
}

/// A reception that `item` records is of a transmission that overlaps none
/// of the receiver's own transmissions in `field`.
pub open spec fn not_read_while_sending(field: Seq<Transmission>, item: LogItem) -> bool {
    match item.content {
        LogContent::TransmissionReceived { receiver_id, transmission_id } => forall|i: int, k: int|
            0 <= i < field.len() && 0 <= k < field.len() && field[k].id == transmission_id && field[i].transmitter_id
                == receiver_id && i != k ==> !crate::em::overlaps_spec(field[i], field[k]),
        _ => true,
    }
}

/// The discrete-event kernel's state: clock, pending events, the field of
/// transmissions, each node's settings and simulated threads, and the log.
pub struct Simulation {
    pub sim_time: Time,
    pub event_queue: EventQueue,
    pub topology: NodeLocation,
    pub node_settings: Vec<NodeSettings>,
    pub notify_status: Vec<NotifyTable>,
    pub em_field: EmField,
    pub next_trans_id: u32,
    pub test_messages: Vec<MessageInfo>,
    pub logs: Vec<LogItem>,
    pub do_node_logs: bool,
    pub finished: bool,
    /// The run's one random stream, seeded once; every draw of the node models
    /// comes from it.
    pub rng: SimRng,
}

impl Simulation {
    pub open spec fn event_ok(&self, e: SimEvent) -> bool {
        let n = self.node_settings@.len();
        &&& e.time@ >= self.sim_time@
        &&& match e.action {
            SimAction::GenerateMessage { node_id, message_id } => node_id < n && message_id
                < self.test_messages@.len(),
            SimAction::SendMessage { node_id, header, message_content } => node_id < n
                && content_ok(self.test_messages@, message_content),
            SimAction::RecieveMessage { node_id, transmission_id } => node_id < n && delivers(
                self.topology,
                self.em_field@,
                transmission_id,
                node_id,
                e.time@,
            ),
            SimAction::MaybeNotify { node_id, on_thread } => node_id < n,
        }
    }

    pub open spec fn wf(&self) -> bool {
        let n = self.node_settings@.len();
        let f = self.em_field@;
        &&& n == self.topology.len_spec()
        &&& self.topology.wf()
        &&& self.notify_status@.len() == n
        &&& forall|i: int| 0 <= i < n ==> settings_ok(#[trigger] self.node_settings@[i])
        &&& forall|i: int|
            0 <= i < self.test_messages@.len() ==> 0 <= (#[trigger] self.test_messages@[i]).size
                <= MAX_MESSAGE_SIZE
        &&& (self.finished || self.sim_time@ < SIM_END_MICROS)
        &&& self.event_queue.wf()
        &&& forall|k: int|
            0 <= k < self.event_queue@.len() ==> self.event_ok(#[trigger] self.event_queue@[k].event)
        &&& self.em_field.wf()
        &&& started_by(f, self.sim_time@)
        &&& no_self_overlap(f)
        &&& forall|i: int| 0 <= i < f.len() ==> (#[trigger] f[i]).id < self.next_trans_id
        &&& forall|i: int, j: int| 0 <= i < j < f.len() ==> f[i].id != f[j].id
        &&& forall|i: int|
            0 <= i < f.len() ==> content_ok(self.test_messages@, (#[trigger] f[i]).message_content)
        &&& sent_pairs(self.logs@).len() == f.len()
        &&& forall|i: int|
            0 <= i < f.len() ==> sent_pairs(self.logs@).contains(
                ((#[trigger] f[i]).transmitter_id, f[i].id),
            )
        &&& forall|j: int|
            0 <= j < self.logs@.len() ==> received_log_ok(self.topology, f, #[trigger] self.logs@[j])
        &&& forall|j: int| 0 <= j < self.logs@.len() ==> (#[trigger] self.logs@[j]).time@ <= self.sim_time@
        &&& forall|j: int| 0 <= j < self.logs@.len() ==> not_read_while_sending(f, #[trigger] self.logs@[j])
    }

    /// A simulation at time zero over `topology`, node `i` with
    /// `node_settings[i]`, no thread registered, nothing queued or logged, its
    /// random stream seeded with `random_seed`.
    pub fn new(
        topology: NodeLocation,
        node_settings: Vec<ScenarioNodeSettings>,
        random_seed: u64,
        do_node_logs: bool,
    ) -> (r: Simulation)
        requires
            topology.wf(),
            node_settings@.len() == topology.len_spec(),
            forall|i: int|
                0 <= i < node_settings@.len() ==> settings_ok(
                    NodeSettings::from_scenario_spec(#[trigger] node_settings@[i]),
                ),
        ensures
            r.wf(),
            r.sim_time@ == 0,
            r.event_queue@.len() == 0,
            r.em_field@.len() == 0,
            r.logs@.len() == 0,
            r.test_messages@.len() == 0,
            r.node_settings@.len() == node_settings@.len(),
            forall|i: int|
                0 <= i < node_settings@.len() ==> r.node_settings@[i]
                    == NodeSettings::from_scenario_spec(#[trigger] node_settings@[i]),
            forall|i: int|
                0 <= i < node_settings@.len() ==> #[trigger] r.notify_status@[i] == (NotifyTable {
                    radio: None,
                    routing: None,
                    cache: None,
                }),
            r.do_node_logs == do_node_logs,
            !r.finished,
    {
        let mut settings: Vec<NodeSettings> = Vec::new();
        let mut tables: Vec<NotifyTable> = Vec::new();
        let mut i: usize = 0;
        while i < node_settings.len()
            invariant
                i <= node_settings@.len(),
                settings@.len() == i,
                tables@.len() == i,
                forall|j: int|
                    0 <= j < i ==> settings@[j] == NodeSettings::from_scenario_spec(
                        #[trigger] node_settings@[j],
                    ),
                forall|j: int|
                    0 <= j < i ==> #[trigger] tables@[j] == (NotifyTable {
                        radio: None,
                        routing: None,
                        cache: None,
                    }),
            decreases node_settings@.len() - i,
        {
            settings.push(NodeSettings::from_scenario(node_settings[i]));
            tables.push(NotifyTable::new());
            i += 1;
        }
        let sim = Simulation {
            sim_time: Time { micros: 0 },
            event_queue: EventQueue::new(),
            topology,
            node_settings: settings,
            notify_status: tables,
            em_field: EmField::new(),
            next_trans_id: 0,
            test_messages: Vec::new(),
            logs: Vec::new(),
            do_node_logs,
            finished: false,
            rng: SimRng::new(random_seed),
        };
        assert(sent_pairs(sim.logs@) =~= Seq::empty());
        assert forall|i: int| 0 <= i < sim.node_settings@.len() implies settings_ok(
            #[trigger] sim.node_settings@[i],
        ) by {
            assert(sim.node_settings@[i] == NodeSettings::from_scenario_spec(node_settings@[i]));
        }
        assert(sim.node_settings@.len() == sim.topology.len_spec());
        assert(sim.em_field.wf());
        assert(sim.event_queue.wf());
        sim
    }

    /// Registers a user message, and queues its generations at its sender:
    /// the first at its generation time, each next one its spacing later.
    /// Generations past the representable time are dropped. Returns the
    /// message's id.
    pub fn enqueue_message_generation(&mut self, message: ScenarioMessage) -> (r: usize)
        requires
            old(self).wf(),
            message.sender < old(self).node_settings@.len(),
            0 <= message.size <= MAX_MESSAGE_SIZE,
            message.generate_time@ >= old(self).sim_time@,
        ensures
            final(self).wf(),
            r == old(self).test_messages@.len(),
            final(self).test_messages@.len() == old(self).test_messages@.len() + 1,
            final(self).test_messages@.drop_last() == old(self).test_messages@,
            final(self).test_messages@.last().size == message.size,
            final(self).test_messages@.last().targets@ == message.targets@,
            final(self).sim_time == old(self).sim_time,
            final(self).em_field@ == old(self).em_field@,
            final(self).logs@ == old(self).logs@,
            final(self).node_settings@ == old(self).node_settings@,
            final(self).notify_status@ == old(self).notify_status@,
            final(self).topology == old(self).topology,
            final(self).next_trans_id == old(self).next_trans_id,
            final(self).finished == old(self).finished,
            old(self).event_queue@.len() <= final(self).event_queue@.len() <= old(self).event_queue@.len()
                + message.num_generations,
            final(self).event_queue@.take(old(self).event_queue@.len() as int) == old(self).event_queue@,
            forall|k: int|
                old(self).event_queue@.len() <= k < final(self).event_queue@.len() ==> (#[trigger] final(self).event_queue@[k]).event
                    == (SimEvent {
                    time: Time {
                        micros: (message.generate_time@ + (k - old(self).event_queue@.len())
                            * message.generation_spacing@) as u64,
                    },
                    action: SimAction::GenerateMessage { node_id: message.sender, message_id: r },
                }),
    {
        let message_id = self.test_messages.len();
        let ghost targets = message.targets@;
        self.test_messages.push(MessageInfo { size: message.size, targets: message.targets });
        let ghost before = *self;
        assert(self.event_queue@.take(before.event_queue@.len() as int) =~= before.event_queue@);
        assert(forall|k: int| 0 <= k < self.event_queue@.len() ==> self.event_ok(#[trigger] self.event_queue@[k].event)) by {
            assert forall|k: int| 0 <= k < self.event_queue@.len() implies self.event_ok(#[trigger] self.event_queue@[k].event) by {
                assert(old(self).event_ok(old(self).event_queue@[k].event));
            }
        }
        let mut g: u32 = 0;
        while g < message.num_generations
            invariant
                self.wf(),
                message_id < self.test_messages@.len(),
                message.sender < self.node_settings@.len(),
                message.generate_time@ >= self.sim_time@,
                self.sim_time == before.sim_time,
                self.em_field@ == before.em_field@,
                self.logs@ == before.logs@,
                self.node_settings@ == before.node_settings@,
                self.notify_status@ == before.notify_status@,
                self.topology == before.topology,
                self.test_messages@ == before.test_messages@,
                self.next_trans_id == before.next_trans_id,
                self.finished == before.finished,
                g <= message.num_generations,
                before.event_queue@.len() <= self.event_queue@.len() <= before.event_queue@.len() + g,
                self.event_queue@.len() < before.event_queue@.len() + g ==> self.event_queue.next_seq == u64::MAX,
                self.event_queue@.take(before.event_queue@.len() as int) == before.event_queue@,
                before.event_queue@ == old(self).event_queue@,
                forall|k: int|
                    before.event_queue@.len() <= k < self.event_queue@.len() ==> (#[trigger] self.event_queue@[k]).event
                        == (SimEvent {
                        time: Time {
                            micros: (message.generate_time@ + (k - before.event_queue@.len())
                                * message.generation_spacing@) as u64,
                        },
                        action: SimAction::GenerateMessage { node_id: message.sender, message_id },
                    }),
            decreases message.num_generations - g,
        {
            let sp = message.generation_spacing.micros as u128;
            let gg = g as u128;
            assert(sp * gg <= 0xffff_ffff_ffff_ffffu128 * 0xffff_ffffu128) by (nonlinear_arith)
                requires
                    sp <= 0xffff_ffff_ffff_ffffu128,
                    gg <= 0xffff_ffffu128,
            ;
            let offset = sp * gg;
            assert(offset == (g as int) * message.generation_spacing@) by (nonlinear_arith)
                requires
                    offset == sp * gg,
                    sp == message.generation_spacing@,
                    gg == g,
            ;
            let t = (message.generate_time.micros as u128) + offset;
            if t > u64::MAX as u128 {
                break;
            }
            let ev = SimEvent {
                time: Time { micros: t as u64 },
                action: SimAction::GenerateMessage { node_id: message.sender, message_id },
            };
            let ghost q0 = self.event_queue@;
            let ghost s0 = self.event_queue.next_seq;
            self.push_event(ev);
            proof {
                if s0 < u64::MAX {
                    assert(q0.len() == before.event_queue@.len() + g);
                    assert(self.event_queue@.take(before.event_queue@.len() as int) =~= q0.take(before.event_queue@.len() as int));
                    assert forall|k: int|
                        before.event_queue@.len() <= k < self.event_queue@.len() implies (#[trigger] self.event_queue@[k]).event
                            == (SimEvent {
                            time: Time {
                                micros: (message.generate_time@ + (k - before.event_queue@.len())
                                    * message.generation_spacing@) as u64,
                            },
                            action: SimAction::GenerateMessage { node_id: message.sender, message_id },
                        }) by {
                        if k < q0.len() {
                            assert(self.event_queue@[k] == q0[k]);
                        }
                    }
                }
            }
            g += 1;
        }
        message_id
    }

    /// Queues an event the invariant admits.
    fn push_event(&mut self, e: SimEvent)
        requires
            old(self).wf(),
            old(self).event_ok(e),
        ensures
            final(self).wf(),
            final(self).sim_time == old(self).sim_time,
            final(self).em_field@ == old(self).em_field@,
            final(self).logs@ == old(self).logs@,
            final(self).node_settings@ == old(self).node_settings@,
            final(self).notify_status@ == old(self).notify_status@,
            final(self).topology == old(self).topology,
            final(self).test_messages@ == old(self).test_messages@,
            final(self).next_trans_id == old(self).next_trans_id,
            final(self).finished == old(self).finished,
            old(self).event_queue.next_seq < u64::MAX ==> final(self).event_queue@ == old(self).event_queue@.push((QueuedEvent { event: e, seq: old(self).event_queue.next_seq })),
            old(self).event_queue.next_seq == u64::MAX ==> final(self).event_queue@ == old(self).event_queue@
                && final(self).event_queue.next_seq == u64::MAX,
            old(self).event_queue.next_seq < u64::MAX ==> final(self).event_queue.next_seq == old(self).event_queue.next_seq + 1,
    {
        let ghost q = self.event_queue@;
        self.event_queue.push(e);
        assert forall|k: int| 0 <= k < self.event_queue@.len() implies self.event_ok(#[trigger] self.event_queue@[k].event) by {
            if k < q.len() {
                assert(self.event_queue@[k] == q[k]);
            }
        }
    }

    /// Takes out the next event and moves the clock to it. Where none is left
    /// the result is `None`. An event due at or after `SIM_END_MICROS` ends the
    /// run: the clock moves to it, every pending event is dropped, the run is
    /// marked finished and the result is `None`. A finished run hands out no
    /// more events.
    pub fn next_event(&mut self) -> (r: Option<SimEvent>)
        requires
            old(self).wf(),
        ensures
            final(self).wf(),
            final(self).sim_time@ >= old(self).sim_time@,
            final(self).em_field@ == old(self).em_field@,
            final(self).logs@ == old(self).logs@,
            final(self).node_settings@ == old(self).node_settings@,
            final(self).notify_status@ == old(self).notify_status@,
            final(self).test_messages@ == old(self).test_messages@,
            final(self).topology == old(self).topology,
            final(self).next_trans_id == old(self).next_trans_id,
            old(self).event_queue@.len() == 0 ==> r is None && final(self).sim_time == old(self).sim_time
                && final(self).event_queue@.len() == 0 && final(self).finished == old(self).finished,
            old(self).finished ==> r is None && final(self).sim_time == old(self).sim_time
                && final(self).event_queue@.len() == 0 && final(self).finished,
            !old(self).finished && old(self).event_queue@.len() > 0 ==> exists|k: int|
                #[trigger] crate::events::is_first(old(self).event_queue@, k) && {
                    let e = old(self).event_queue@[k].event;
                    &&& final(self).sim_time == e.time
                    &&& e.time@ < SIM_END_MICROS ==> r == Some(e) && !final(self).finished
                        && final(self).event_queue@ == old(self).event_queue@.remove(k)
                    &&& e.time@ >= SIM_END_MICROS ==> r is None && final(self).finished
                        && final(self).event_queue@.len() == 0
                },
            r matches Some(e) ==> final(self).event_ok(e) && e.time == final(self).sim_time,
    {
        if self.finished {
            self.event_queue.clear();
            return None;
        }
        if self.event_queue.is_empty() {
            return None;
        }
        let ghost q = self.event_queue@;
        let e = match self.event_queue.pop() {
            Some(e) => e,
            None => {
                return None;
            },
        };
        let ghost k = choose|k: int|
            0 <= k < q.len() && e == q[k].event && self.event_queue@ == q.remove(k) && forall|j: int|
                0 <= j < q.len() ==> crate::events::precedes(q[k], q[j]);
        assert(crate::events::is_first(q, k));
        assert(old(self).event_ok(q[k].event));
        self.sim_time = e.time;
        if e.time.micros >= SIM_END_MICROS {
            self.event_queue.clear();
            self.finished = true;
            return None;
        }
        assert forall|j: int| 0 <= j < self.event_queue@.len() implies self.event_ok(
            #[trigger] self.event_queue@[j].event,
        ) by {
            let m = if j < k { j } else { j + 1 };
            assert(self.event_queue@[j] == q[m]);
            assert(old(self).event_ok(q[m].event));
            assert(crate::events::precedes(q[k], q[m]));
        }
        Some(e)
    }

    /// What holds of every state a run passes through: the field is ordered by
    /// end time; no node has two transmissions on air at once; the sends the
    /// log records match the field's transmissions one for one; every
    /// reception the log records is of a transmission that reaches the
    /// receiver and was logged when that transmission ended; and every queued
    /// reception is due when its transmission ends; and no logged reception
    /// overlaps a transmission of the receiver's own.
    pub proof fn lemma_run_invariants(&self)
        requires
            self.wf(),
        ensures
            sorted_by_end(self.em_field@),
            no_self_overlap(self.em_field@),
            sent_pairs(self.logs@).len() == self.em_field@.len(),
            forall|i: int|
                0 <= i < self.em_field@.len() ==> sent_pairs(self.logs@).contains(
                    ((#[trigger] self.em_field@[i]).transmitter_id, self.em_field@[i].id),
                ),
            forall|i: int, j: int|
                0 <= i < j < self.em_field@.len() ==> self.em_field@[i].id != self.em_field@[j].id,
            forall|j: int|
                0 <= j < self.logs@.len() ==> received_log_ok(self.topology, self.em_field@, #[trigger] self.logs@[j]),
            forall|j: int| 0 <= j < self.logs@.len() ==> not_read_while_sending(self.em_field@, #[trigger] self.logs@[j]),
            forall|k: int|
                0 <= k < self.event_queue@.len() ==> reception_due(
                    self.topology,
                    self.em_field@,
                    #[trigger] self.event_queue@[k].event,
                ),
    {
        assert forall|k: int| 0 <= k < self.event_queue@.len() implies reception_due(
            self.topology,
            self.em_field@,
            #[trigger] self.event_queue@[k].event,
        ) by {
            assert(self.event_ok(self.event_queue@[k].event));
        }
    }

    /// Whether node `node_id` has a transmission still on air.
    pub fn is_transmitting(&self, node_id: usize) -> (r: bool)
        requires
            self.wf(),
        ensures
            r == exists|i: int|
                0 <= i < self.em_field@.len() && self.em_field@[i].end_time@ >= self.sim_time@
                    && self.em_field@[i].transmitter_id == node_id,
    {
        self.em_field.is_transmitting(node_id, self.sim_time)
    }

    /// Starts a transmission by `sender_id` of `header` and `message_content`
    /// now, lasting the air time of header and body with the sender's present
    /// settings: it enters the field with the next transmission id, each node
    /// that hears the sender gets a reception event at its end, and the send is
    /// logged. While the sender is still transmitting nothing happens and the
    /// busy radio is reported.
    pub fn try_broadcast(&mut self, sender_id: usize, header: Header, message_content: MessageContent) -> (r:
        Result<(), NodeError>)
        requires
            old(self).wf(),
            sender_id < old(self).node_settings@.len(),
            content_ok(old(self).test_messages@, message_content),
            old(self).next_trans_id < u32::MAX,
            !old(self).finished,
        ensures
            final(self).wf(),
            final(self).sim_time == old(self).sim_time,
            final(self).finished == old(self).finished,
            final(self).node_settings@ == old(self).node_settings@,
            final(self).notify_status@ == old(self).notify_status@,
            final(self).test_messages@ == old(self).test_messages@,
            final(self).topology == old(self).topology,
            (exists|i: int|
                0 <= i < old(self).em_field@.len() && old(self).em_field@[i].end_time@ >= old(self).sim_time@ && old(self).em_field@[i].transmitter_id == sender_id) <==> r is Err,
            r is Err ==> r == Err::<(), NodeError>(NodeError::RadioBusyError(header, message_content))
                && final(self).em_field@ == old(self).em_field@ && final(self).logs@ == old(self).logs@
                && final(self).next_trans_id == old(self).next_trans_id,
            r is Ok ==> final(self).next_trans_id == old(self).next_trans_id + 1
                && final(self).em_field@.len() == old(self).em_field@.len() + 1
                && final(self).logs@ == old(self).logs@.push(
                (LogItem {
                    time: old(self).sim_time,
                    log_level: LogLevel::Info,
                    source: LogSource::Simulation,
                    content: LogContent::TransmissionSent {
                        sender_id,
                        transmission_id: old(self).next_trans_id,
                    },
                }),
            ) && exists|i: int|
                0 <= i < final(self).em_field@.len() && {
                    let t = #[trigger] final(self).em_field@[i];
                    &&& t.id == old(self).next_trans_id
                    &&& t.transmitter_id == sender_id
                    &&& t.start_time == old(self).sim_time
                    &&& t.end_time@ == old(self).sim_time@ + air_time_micros(
                        content_size(old(self).test_messages@, message_content) + HEADER_SIZE,
                        old(self).node_settings@[sender_id as int].sf as int,
                        old(self).node_settings@[sender_id as int].coding_rate as int,
                        old(self).node_settings@[sender_id as int].bandwidth@,
                    )
                    &&& t.header == header
                    &&& t.message_content == message_content
                    &&& t.sf == old(self).node_settings@[sender_id as int].sf
                    &&& t.power == old(self).node_settings@[sender_id as int].use_power
                    &&& t.bandwidth == old(self).node_settings@[sender_id as int].bandwidth
                    &&& t.carrier_band == old(self).node_settings@[sender_id as int].carrier_band
                    &&& final(self).event_queue.next_seq < u64::MAX ==> forall|v: usize|
                        #[trigger] final(self).topology.is_adjacent(sender_id, v) ==> gets_reception(
                            final(self).event_queue@,
                            old(self).event_queue@.len() as int,
                            v,
                            t,
                        )
                    &&& forall|k: int|
                        old(self).event_queue@.len() <= k < final(self).event_queue@.len() ==> {
                            let e = (#[trigger] final(self).event_queue@[k]).event;
                            &&& e.time == t.end_time
                            &&& e.action matches SimAction::RecieveMessage { node_id, transmission_id }
                                && transmission_id == t.id && final(self).topology.is_adjacent(sender_id, node_id)
                        }
                },
            r is Ok ==> final(self).event_queue@.len() >= old(self).event_queue@.len()
                && final(self).event_queue@.take(old(self).event_queue@.len() as int) == old(self).event_queue@,
            r is Err ==> final(self).event_queue@ == old(self).event_queue@,
    {
        let settings = self.node_settings[sender_id];
        let size = self.message_size(&message_content);
        let id = self.next_trans_id;
        proof {
            lemma_air_time_bounds(
                size + HEADER_SIZE,
                settings.sf as int,
                settings.coding_rate as int,
                settings.bandwidth@,
            );
        }
        let ghost f0 = self.em_field@;
        let res = self.em_field.try_broadcast(
            self.sim_time,
            id,
            sender_id,
            &settings,
            header,
            message_content,
            size,
        );
        let t = match res {
            Err(e) => {
                return Err(e);
            },
            Ok(t) => t,
        };
        let ghost p = choose|p: int|
            crate::em::insert_position_ok(f0, t, p) && self.em_field@ == f0.insert(p, t);
        assert(self.em_field@[p] == t);
        self.next_trans_id = id + 1;
        let ghost logs0 = self.logs@;
        let item = LogItem {
            time: self.sim_time,
            log_level: LogLevel::Info,
            source: LogSource::Simulation,
            content: LogContent::TransmissionSent { sender_id, transmission_id: id },
        };
        self.logs.push(item);
        proof {
            let f = self.em_field@;
            assert(self.logs@.drop_last() =~= logs0);
            assert(sent_pairs(self.logs@) == sent_pairs(logs0).push((sender_id, id)));
            assert forall|i: int| 0 <= i < f.len() implies sent_pairs(self.logs@).contains(
                ((#[trigger] f[i]).transmitter_id, f[i].id),
            ) by {
                if i == p {
                    assert(sent_pairs(self.logs@).last() == (sender_id, id));
                } else {
                    let m = if i < p { i } else { i - 1 };
                    assert(f[i] == f0[m]);
                    assert(sent_pairs(logs0).contains((f0[m].transmitter_id, f0[m].id)));
                    let k = choose|k: int| 0 <= k < sent_pairs(logs0).len() && sent_pairs(logs0)[k] == (f0[m].transmitter_id, f0[m].id);
                    assert(sent_pairs(self.logs@)[k] == sent_pairs(logs0)[k]);
                }
            }
            assert forall|i: int| 0 <= i < f.len() implies (#[trigger] f[i]).id < self.next_trans_id by {
                if i != p {
                    let m = if i < p { i } else { i - 1 };
                    assert(f[i] == f0[m]);
                }
            }
            assert forall|i: int, j: int| 0 <= i < j < f.len() implies f[i].id != f[j].id by {
                let mi = if i < p { i } else { i - 1 };
                let mj = if j < p { j } else { j - 1 };
                if i != p {
                    assert(f[i] == f0[mi]);
                }
                if j != p {
                    assert(f[j] == f0[mj]);
                }
            }
            assert forall|i: int| 0 <= i < f.len() implies content_ok(
                self.test_messages@,
                (#[trigger] f[i]).message_content,
            ) by {
                if i != p {
                    let m = if i < p { i } else { i - 1 };
                    assert(f[i] == f0[m]);
                }
            }
            assert forall|j: int| 0 <= j < self.logs@.len() implies received_log_ok(
                self.topology,
                f,
                #[trigger] self.logs@[j],
            ) by {
                if j < logs0.len() {
                    assert(self.logs@[j] == logs0[j]);
                    if let LogContent::TransmissionReceived { receiver_id, transmission_id } = logs0[j].content {
                        lemma_delivers_insert(self.topology, f0, p, t, transmission_id, receiver_id, logs0[j].time@);
                    }
                }
            }
            assert forall|k: int| 0 <= k < self.event_queue@.len() implies self.event_ok(
                #[trigger] self.event_queue@[k].event,
            ) by {
                let e = self.event_queue@[k].event;
                assert(old(self).event_ok(e));
                if let SimAction::RecieveMessage { node_id, transmission_id } = e.action {
                    lemma_delivers_insert(self.topology, f0, p, t, transmission_id, node_id, e.time@);
                }
            }
        }
        let adj = self.topology.get_adj(sender_id);
        assert(self.event_queue@.take(old(self).event_queue@.len() as int) =~= old(self).event_queue@);
        let mut a: usize = 0;
        while a < adj.len()
            invariant
                self.wf(),
                0 <= p < self.em_field@.len(),
                self.em_field@[p] == t,
                t.id == id,
                t.transmitter_id == sender_id,
                t.start_time == self.sim_time,
                sender_id < self.node_settings@.len(),
                forall|i: int| 0 <= i < adj@.len() ==> self.topology.is_adjacent(sender_id, #[trigger] adj@[i]),
                self.sim_time == old(self).sim_time,
                self.node_settings@ == old(self).node_settings@,
                self.notify_status@ == old(self).notify_status@,
                self.test_messages@ == old(self).test_messages@,
                self.topology == old(self).topology,
                self.em_field@ == f0.insert(p, t),
                self.logs@ == logs0.push(item),
                self.next_trans_id == id + 1,
                self.event_queue@.len() >= old(self).event_queue@.len(),
                self.event_queue@.take(old(self).event_queue@.len() as int) == old(self).event_queue@,
                forall|k: int|
                    old(self).event_queue@.len() <= k < self.event_queue@.len() ==> {
                        let e = (#[trigger] self.event_queue@[k]).event;
                        &&& e.time == t.end_time
                        &&& e.action matches SimAction::RecieveMessage { node_id, transmission_id }
                            && transmission_id == t.id && self.topology.is_adjacent(sender_id, node_id)
                    },
                forall|v: usize| #[trigger] self.topology.is_adjacent(sender_id, v) ==> adj@.contains(v),
                self.event_queue.next_seq < u64::MAX ==> forall|j: int|
                    0 <= j < a ==> gets_reception(self.event_queue@, old(self).event_queue@.len() as int, #[trigger] adj@[j], t),
                !self.finished,
            decreases adj@.len() - a,
        {
            let node = adj[a];
            assert(self.topology.is_adjacent(sender_id, adj@[a as int]));
            proof {
                self.topology.lemma_adjacent_in_range(sender_id, node);
            }
            let ev = SimEvent {
                time: t.end_time,
                action: SimAction::RecieveMessage { node_id: node, transmission_id: id },
            };
            assert(delivers(self.topology, self.em_field@, id, node, t.end_time@));
            let ghost q0 = self.event_queue@;
            let ghost s0 = self.event_queue.next_seq;
            self.push_event(ev);
            proof {
                if s0 < u64::MAX {
                    assert(self.event_queue@[q0.len() as int].event == ev);
                    assert forall|j: int| 0 <= j < a + 1 implies gets_reception(self.event_queue@, old(self).event_queue@.len() as int, #[trigger] adj@[j], t) by {
                        if j < a {
                            let k = choose|k: int| old(self).event_queue@.len() <= k < q0.len() && q0[k].event == (SimEvent {
                                time: t.end_time,
                                action: SimAction::RecieveMessage { node_id: adj@[j], transmission_id: t.id },
                            });
                            assert(self.event_queue@[k] == q0[k]);
                        } else {
                            assert(ev == (SimEvent {
                                time: t.end_time,
                                action: SimAction::RecieveMessage { node_id: adj@[j], transmission_id: t.id },
                            }));
                        }
                    }
                    assert(self.event_queue@.take(old(self).event_queue@.len() as int) =~= q0.take(old(self).event_queue@.len() as int));
                    assert forall|k: int| old(self).event_queue@.len() <= k < self.event_queue@.len() implies {
                        let e = (#[trigger] self.event_queue@[k]).event;
                        &&& e.time == t.end_time
                        &&& e.action matches SimAction::RecieveMessage { node_id, transmission_id }
                            && transmission_id == t.id && self.topology.is_adjacent(sender_id, node_id)
                    } by {
                        if k < q0.len() {
                            assert(self.event_queue@[k] == q0[k]);
                        }
                    }
                }
            }
            a += 1;
        }
        Ok(())
    }

    /// Handles the end of transmission `transmission_id` at `node_id`, due now:
    /// decides the reception from the target's power at the node
    /// (`target_power`), the field's powers there (`powers[i]` for the `i`-th
    /// transmission; read only for those ending at or after the target's
    /// start) and the noise over its bandwidth. A block is logged; a read is
    /// logged and its header, content, size and SNR are returned for the
    /// node's model.
    #[verifier::rlimit(60)]
    pub fn receive_message(
        &mut self,
        node_id: usize,
        transmission_id: u32,
        target_power: Db,
        powers: &Vec<Db>,
        noise: Db,
    ) -> (r: Option<(Header, MessageContent, i32, Db)>)
        requires
            old(self).wf(),
            node_id < old(self).node_settings@.len(),
            delivers(old(self).topology, old(self).em_field@, transmission_id, node_id, old(self).sim_time@),
            powers@.len() == old(self).em_field@.len(),
            powers_in_range(powers@),
            target_power.in_range(),
            noise.in_range(),
        ensures
            final(self).wf(),
            final(self).sim_time == old(self).sim_time,
            final(self).em_field@ == old(self).em_field@,
            final(self).event_queue@ == old(self).event_queue@,
            final(self).node_settings@ == old(self).node_settings@,
            final(self).notify_status@ == old(self).notify_status@,
            final(self).test_messages@ == old(self).test_messages@,
            exists|i: int|
                0 <= i < old(self).em_field@.len() && (#[trigger] old(self).em_field@[i]).id == transmission_id
                    && match reception_spec(
                    old(self).em_field@,
                    powers@,
                    node_id,
                    old(self).em_field@[i],
                    target_power@,
                    noise@,
                ) {
                    TransmissionResult::Success { snr } => r == Some(
                        (
                            old(self).em_field@[i].header,
                            old(self).em_field@[i].message_content,
                            content_size(old(self).test_messages@, old(self).em_field@[i].message_content) as i32,
                            snr,
                        ),
                    ) && final(self).logs@ == old(self).logs@.push(
                        LogItem {
                            time: old(self).sim_time,
                            log_level: LogLevel::Info,
                            source: LogSource::Simulation,
                            content: LogContent::TransmissionReceived { receiver_id: node_id, transmission_id },
                        },
                    ),
                    TransmissionResult::Blocked { blocker_id } => r is None && final(self).logs@ == old(self).logs@.push(
                        LogItem {
                            time: old(self).sim_time,
                            log_level: LogLevel::Debug,
                            source: LogSource::Simulation,
                            content: LogContent::TransmissionBlocked {
                                receiver_id: node_id,
                                target_transmission_id: transmission_id,
                                blocking_transmission_id: blocker_id,
                            },
                        },
                    ),
                    TransmissionResult::TooWeak => r is None && final(self).logs@ == old(self).logs@,
                },
    {
        let t = match self.em_field.find_transmission(transmission_id) {
            Some(t) => t,
            None => {
                assert(false);
                return None;
            },
        };
        let ghost i = choose|i: int|
            0 <= i < self.em_field@.len() && self.em_field@[i] == t && t.id == transmission_id
                && forall|j: int| i < j < self.em_field@.len() ==> self.em_field@[j].id != transmission_id;
        let ghost logs0 = self.logs@;
        let res = reception_at(&self.em_field, node_id, &t, target_power, powers, noise);
        match res {
            TransmissionResult::Blocked { blocker_id } => {
                self.logs.push(
                    LogItem {
                        time: self.sim_time,
                        log_level: LogLevel::Debug,
                        source: LogSource::Simulation,
                        content: LogContent::TransmissionBlocked {
                            receiver_id: node_id,
                            target_transmission_id: transmission_id,
                            blocking_transmission_id: blocker_id,
                        },
                    },
                );
                proof {
                    assert(self.logs@.drop_last() =~= logs0);
                    self.lemma_log_keeps_wf(logs0);
                }
                None
            },
            TransmissionResult::TooWeak => None,
            TransmissionResult::Success { snr } => {
                proof {
                    let f = self.em_field@;
                    assert(f[i] == t);
                    assert forall|a: int, k: int|
                        0 <= a < f.len() && 0 <= k < f.len() && f[k].id == transmission_id && f[a].transmitter_id
                            == node_id && a != k implies !crate::em::overlaps_spec(f[a], f[k]) by {
                        assert(k == i) by {
                            if k != i {
                                if k < i {
                                    assert(f[k].id != f[i].id);
                                } else {
                                    assert(f[i].id != f[k].id);
                                }
                            }
                        }
                        if a < k {
                            assert(f[a].id != f[k].id);
                        } else {
                            assert(f[k].id != f[a].id);
                        }
                        if crate::em::overlaps_spec(f[a], f[k]) {
                            crate::capture::lemma_no_reception_while_transmitting(
                                f, powers@, node_id, t, target_power@, noise@, a,
                            );
                        }
                    }
                }
                let size = self.message_size(&t.message_content);
                self.logs.push(
                    LogItem {
                        time: self.sim_time,
                        log_level: LogLevel::Info,
                        source: LogSource::Simulation,
                        content: LogContent::TransmissionReceived { receiver_id: node_id, transmission_id },
                    },
                );
                proof {
                    assert(self.logs@.drop_last() =~= logs0);
                    self.lemma_log_keeps_wf(logs0);
                }
                Some((t.header, t.message_content, size, snr))
            },
        }
    }

    /// Appending an entry that is no send, and whose reception (if it is one)
    /// is delivered, keeps the invariant.
    proof fn lemma_log_keeps_wf(&self, logs0: Seq<LogItem>)
        requires
            self.logs@.len() == logs0.len() + 1,
            self.logs@.drop_last() == logs0,
            !(self.logs@.last().content is TransmissionSent),
            received_log_ok(self.topology, self.em_field@, self.logs@.last()),
            sent_pairs(logs0).len() == self.em_field@.len(),
            forall|i: int|
                0 <= i < self.em_field@.len() ==> sent_pairs(logs0).contains(
                    ((#[trigger] self.em_field@[i]).transmitter_id, self.em_field@[i].id),
                ),
            forall|j: int|
                0 <= j < logs0.len() ==> received_log_ok(self.topology, self.em_field@, #[trigger] logs0[j]),
            forall|j: int| 0 <= j < logs0.len() ==> (#[trigger] logs0[j]).time@ <= self.sim_time@,
            forall|j: int| 0 <= j < logs0.len() ==> not_read_while_sending(self.em_field@, #[trigger] logs0[j]),
            self.logs@.last().time@ <= self.sim_time@,
            not_read_while_sending(self.em_field@, self.logs@.last()),
        ensures
            sent_pairs(self.logs@) == sent_pairs(logs0),
            forall|j: int|
                0 <= j < self.logs@.len() ==> received_log_ok(self.topology, self.em_field@, #[trigger] self.logs@[j]),
            forall|j: int| 0 <= j < self.logs@.len() ==> (#[trigger] self.logs@[j]).time@ <= self.sim_time@,
            forall|j: int| 0 <= j < self.logs@.len() ==> not_read_while_sending(self.em_field@, #[trigger] self.logs@[j]),
    {
        assert forall|j: int| 0 <= j < self.logs@.len() implies (#[trigger] self.logs@[j]).time@ <= self.sim_time@
            && not_read_while_sending(self.em_field@, self.logs@[j]) by {
            if j < logs0.len() {
                assert(self.logs@[j] == logs0[j]);
            }
        }
        assert forall|j: int| 0 <= j < self.logs@.len() implies received_log_ok(
            self.topology,
            self.em_field@,
            #[trigger] self.logs@[j],
        ) by {
            if j < logs0.len() {
                assert(self.logs@[j] == logs0[j]);
            }
        }
    }

    /// A wake-up for `on_thread` of `node_id` has come due: the notification
    /// to deliver to the node's model where it is still the live one (see
    /// `NotifyTable::take_due`).
    pub fn maybe_notify(&mut self, node_id: usize, on_thread: NodeThread) -> (r: Option<Notification>)
        requires
            old(self).wf(),
            node_id < old(self).node_settings@.len(),
        ensures
            final(self).wf(),
            ({
                let e = old(self).notify_status@[node_id as int].entry(on_thread);
                let live = e matches Some(st) && st.at_time == old(self).sim_time && st.notification is Some;
                &&& live ==> r == e->Some_0.notification && final(self).notify_status@ == old(self).notify_status@.update(
                    node_id as int,
                    old(self).notify_status@[node_id as int].with_entry(
                        on_thread,
                        Some(crate::notify::NotifyStatus { notification: None, at_time: old(self).sim_time }),
                    ),
                )
                &&& !live ==> r is None && final(self).notify_status@ == old(self).notify_status@
            }),
            final(self).sim_time == old(self).sim_time,
            final(self).em_field@ == old(self).em_field@,
            final(self).event_queue@ == old(self).event_queue@,
            final(self).logs@ == old(self).logs@,
            final(self).node_settings@ == old(self).node_settings@,
    {
        let mut table = self.notify_status[node_id];
        let r = table.take_due(on_thread, self.sim_time);
        self.notify_status.set(node_id, table);
        proof {
            if r is None {
                assert(self.notify_status@ =~= old(self).notify_status@);
            }
        }
        r
    }

    /// The time `delay` after now, or the last representable time.
    fn later(&self, delay: Time) -> (r: Time)
        ensures
            r@ == later_spec(self.sim_time@, delay@),
            r@ >= self.sim_time@,
    {
        match self.sim_time.checked_add(delay) {
            Some(t) => t,
            None => Time { micros: u64::MAX },
        }
    }

    /// Queues a send by `node_id` after its reaction time.
    pub fn enqueue_send(&mut self, node_id: usize, header: Header, message_content: MessageContent)
        requires
            old(self).wf(),
            node_id < old(self).node_settings@.len(),
            content_ok(old(self).test_messages@, message_content),
        ensures
            final(self).wf(),
            final(self).sim_time == old(self).sim_time,
            final(self).em_field@ == old(self).em_field@,
            final(self).logs@ == old(self).logs@,
            final(self).notify_status@ == old(self).notify_status@,
            final(self).node_settings@ == old(self).node_settings@,
            final(self).test_messages@ == old(self).test_messages@,
            final(self).topology == old(self).topology,
            final(self).finished == old(self).finished,
            final(self).next_trans_id == old(self).next_trans_id,
            old(self).event_queue.next_seq < u64::MAX ==> final(self).event_queue@ == old(self).event_queue@.push(
                (QueuedEvent {
                    event: SimEvent {
                        time: Time {
                            micros: later_spec(
                                old(self).sim_time@,
                                old(self).node_settings@[node_id as int].reaction_time@,
                            ) as u64,
                        },
                        action: SimAction::SendMessage { node_id, header, message_content },
                    },
                    seq: old(self).event_queue.next_seq,
                }),
            ),
            old(self).event_queue.next_seq == u64::MAX ==> final(self).event_queue@ == old(self).event_queue@,
    {
        let at = self.later(self.node_settings[node_id].reaction_time);
        self.push_event(SimEvent { time: at, action: SimAction::SendMessage { node_id, header, message_content } });
    }

    /// Asks for `notification` on `thread` of `node_id` after `delay` (see
    /// `NotifyTable::notify_later`); where it is set, a wake-up is queued for
    /// when it is due. A delay past the representable time is cut to it.
    pub fn notify_later(
        &mut self,
        node_id: usize,
        delay: Time,
        notification: Notification,
        thread: NodeThread,
        should_override: bool,
    )
        requires
            old(self).wf(),
            node_id < old(self).node_settings@.len(),
            old(self).notify_status@[node_id as int].entry(thread) is Some,
        ensures
            final(self).wf(),
            final(self).sim_time == old(self).sim_time,
            final(self).em_field@ == old(self).em_field@,
            final(self).logs@ == old(self).logs@,
            final(self).node_settings@ == old(self).node_settings@,
            notified(*old(self), *final(self), node_id, delay@, notification, thread, should_override),
            final(self).test_messages@ == old(self).test_messages@,
            final(self).topology == old(self).topology,
            final(self).finished == old(self).finished,
            final(self).next_trans_id == old(self).next_trans_id,
    {
        let room = u64::MAX - self.sim_time.micros;
        let d = if delay.micros > room { Time { micros: room } } else { delay };
        let mut table = self.notify_status[node_id];
        let due = table.notify_later(self.sim_time, d, notification, thread, should_override);
        self.notify_status.set(node_id, table);
        proof {
            if due is None {
                assert(self.notify_status@ =~= old(self).notify_status@);
            }
        }
        match due {
            Some(at) => {
                self.push_event(SimEvent { time: at, action: SimAction::MaybeNotify { node_id, on_thread: thread } });
            },
            None => {},
        }
    }

    /// Registers `thread` for `node_id` with nothing pending.
    pub fn register_thread(&mut self, node_id: usize, thread: NodeThread)
        requires
            old(self).wf(),
            node_id < old(self).node_settings@.len(),
        ensures
            final(self).wf(),
            final(self).notify_status@ == old(self).notify_status@.update(
                node_id as int,
                old(self).notify_status@[node_id as int].with_entry(
                    thread,
                    Some(crate::notify::NotifyStatus { notification: None, at_time: Time { micros: 0 } }),
                ),
            ),
            final(self).sim_time == old(self).sim_time,
            final(self).em_field@ == old(self).em_field@,
            final(self).event_queue@ == old(self).event_queue@,
            final(self).logs@ == old(self).logs@,
            final(self).node_settings@ == old(self).node_settings@,
    {
        let mut table = self.notify_status[node_id];
        table.register_thread(thread);
        self.notify_status.set(node_id, table);
    }

    /// Logs `text` for `node_id`, where node logs are kept.
    pub fn log(&mut self, node_id: usize, text: String, level: LogLevel)
        requires
            old(self).wf(),
        ensures
            final(self).wf(),
            old(self).do_node_logs ==> final(self).logs@.len() == old(self).logs@.len() + 1
                && final(self).logs@.drop_last() == old(self).logs@
                && final(self).logs@.last().time == old(self).sim_time
                && final(self).logs@.last().source == LogSource::Node(node_id)
                && final(self).logs@.last().log_level == level
                && final(self).logs@.last().content == LogContent::Text(text),
            !old(self).do_node_logs ==> final(self).logs@ == old(self).logs@,
            final(self).sim_time == old(self).sim_time,
            final(self).em_field@ == old(self).em_field@,
            final(self).event_queue@ == old(self).event_queue@,
            final(self).node_settings@ == old(self).node_settings@,
            final(self).notify_status@ == old(self).notify_status@,
    {
        if self.do_node_logs {
            let ghost logs0 = self.logs@;
            self.logs.push(
                LogItem {
                    time: self.sim_time,
                    log_level: level,
                    source: LogSource::Node(node_id),
                    content: LogContent::Text(text),
                },
            );
            proof {
                assert(self.logs@.drop_last() =~= logs0);
                self.lemma_log_keeps_wf(logs0);
            }
        }
    }

    /// Sets `node_id`'s spreading factor, which must lie in 7..=12.
    pub fn change_sf(&mut self, node_id: usize, sf: i32) -> (r: Result<(), NodeUpdateError>)
        requires
            old(self).wf(),
            node_id < old(self).node_settings@.len(),
        ensures
            final(self).wf(),
            (7 <= sf <= 12) == (r is Ok),
            r is Ok ==> final(self).node_settings@ == old(self).node_settings@.update(
                node_id as int,
                NodeSettings { sf, ..old(self).node_settings@[node_id as int] },
            ),
            r is Err ==> final(self).node_settings@ == old(self).node_settings@,
    {
        let mut s = self.node_settings[node_id];
        let r = s.change_sf(sf);
        if r.is_ok() {
            self.node_settings.set(node_id, s);
            assert forall|i: int| 0 <= i < self.node_settings@.len() implies settings_ok(
                #[trigger] self.node_settings@[i],
            ) by {
                if i != node_id {
                    assert(self.node_settings@[i] == old(self).node_settings@[i]);
                }
            }
        }
        r
    }

    /// Sets `node_id`'s coding rate, which must lie in 4..=1000.
    pub fn change_coding_rate(&mut self, node_id: usize, coding_rate: i32) -> (r: Result<(), NodeUpdateError>)
        requires
            old(self).wf(),
            node_id < old(self).node_settings@.len(),
        ensures
            final(self).wf(),
            (4 <= coding_rate <= 1000) == (r is Ok),
            r is Ok ==> final(self).node_settings@ == old(self).node_settings@.update(
                node_id as int,
                NodeSettings { coding_rate, ..old(self).node_settings@[node_id as int] },
            ),
            r is Err ==> final(self).node_settings@ == old(self).node_settings@,
    {
        if coding_rate > 1000 {
            return Err(NodeUpdateError);
        }
        let mut s = self.node_settings[node_id];
        let r = s.change_coding_rate(coding_rate);
        if r.is_ok() {
            self.node_settings.set(node_id, s);
            assert forall|i: int| 0 <= i < self.node_settings@.len() implies settings_ok(
                #[trigger] self.node_settings@[i],
            ) by {
                if i != node_id {
                    assert(self.node_settings@[i] == old(self).node_settings@[i]);
                }
            }
        }
        r
    }

    /// Sets the power `node_id` transmits with, which may not exceed its largest.
    pub fn change_power(&mut self, node_id: usize, use_power: Db) -> (r: Result<(), NodeUpdateError>)
        requires
            old(self).wf(),
            node_id < old(self).node_settings@.len(),
        ensures
            final(self).wf(),
            (use_power@ <= old(self).node_settings@[node_id as int].max_power@) == (r is Ok),
            r is Ok ==> final(self).node_settings@ == old(self).node_settings@.update(
                node_id as int,
                NodeSettings { use_power, ..old(self).node_settings@[node_id as int] },
            ),
            r is Err ==> final(self).node_settings@ == old(self).node_settings@,
    {
        let mut s = self.node_settings[node_id];
        let r = s.change_power(use_power);
        if r.is_ok() {
            self.node_settings.set(node_id, s);
            assert forall|i: int| 0 <= i < self.node_settings@.len() implies settings_ok(
                #[trigger] self.node_settings@[i],
            ) by {
                if i != node_id {
                    assert(self.node_settings@[i] == old(self).node_settings@[i]);
                }
            }
        }
        r
    }

    /// Node `node_id`'s clock: simulated time plus the node's clock offset,
    /// held at the last representable time.
    pub fn clock_time(&self, node_id: usize) -> (r: Time)
        requires
            node_id < self.node_settings@.len(),
        ensures
            r@ == later_spec(self.sim_time@, self.node_settings@[node_id as int].clock_offset@),
    {
        self.later(self.node_settings[node_id].clock_offset)
    }

    /// Size in bytes of `content`.
    pub fn message_size(&self, content: &MessageContent) -> (r: i32)
        requires
            self.wf(),
            content_ok(self.test_messages@, *content),
        ensures
            r == content_size(self.test_messages@, *content),
            0 <= r <= MAX_MESSAGE_SIZE,
    {
        match content {
            MessageContent::GeneratedMessage(id) => self.test_messages[*id].size,
            MessageContent::NodeMessage(c) => c.size(),
            MessageContent::Empty => 0,
        }
    }
}

impl Simulation {
    /// Whether `thread` of `node_id` is registered.
    pub fn is_registered(&self, node_id: usize, thread: NodeThread) -> (r: bool)
        requires
            node_id < self.notify_status@.len(),
        ensures
            r == (self.notify_status@[node_id as int].entry(thread) is Some),
    {
        let t = self.notify_status[node_id];
        match thread {
            NodeThread::RadioThread => t.radio.is_some(),
            NodeThread::RoutingThread => t.routing.is_some(),
            NodeThread::CacheThread => t.cache.is_some(),
        }
    }

    /// Whether `content` names a known user message, or none.
    pub fn content_known(&self, content: &MessageContent) -> (r: bool)
        ensures
            r == content_ok(self.test_messages@, *content),
    {
        match content {
            MessageContent::GeneratedMessage(id) => *id < self.test_messages.len(),
            _ => true,
        }
    }

    /// Starts `node_id`'s radio backoff for the packet at the front of
    /// `radio`'s queue (see `backoff_delay`), where one is queued and the
    /// node's radio thread is registered; an earlier backoff still pending is
    /// kept. `busy` of `look_back` is the channel utilisation the node observes;
    /// an SNR beyond the range the library handles counts as none.
    pub fn start_backoff(&mut self, node_id: usize, radio: &RadioInterface, busy: u64, look_back: u64)
        requires
            old(self).wf(),
            node_id < old(self).node_settings@.len(),
            busy <= look_back,
            0 < look_back <= u64::MAX / 5,
        ensures
            final(self).wf(),
            final(self).sim_time == old(self).sim_time,
            final(self).em_field@ == old(self).em_field@,
            final(self).logs@ == old(self).logs@,
            final(self).node_settings@ == old(self).node_settings@,
            final(self).test_messages@ == old(self).test_messages@,
            final(self).topology == old(self).topology,
            final(self).finished == old(self).finished,
            final(self).next_trans_id == old(self).next_trans_id,
            radio@.len() == 0 || old(self).notify_status@[node_id as int].radio is None ==> final(self).event_queue@
                == old(self).event_queue@ && final(self).notify_status@ == old(self).notify_status@,
            radio@.len() > 0 && old(self).notify_status@[node_id as int].radio is Some ==> {
                let s = old(self).node_settings@[node_id as int];
                &&& exists|d: int|
                    #[trigger] notified(
                        *old(self),
                        *final(self),
                        node_id,
                        d,
                        Notification::TransmitDelayCompleted,
                        NodeThread::RadioThread,
                        false,
                    ) && backoff_ok(d, usable_snr(radio@[0]), busy as int, look_back as int, s.bandwidth@, s.sf as int)
                &&& final(self).notify_status@[node_id as int].radio matches Some(st) && st.notification is Some
            },
    {
        let front = match radio.front() {
            Some(p) => p,
            None => {
                return;
            },
        };
        if !self.is_registered(node_id, NodeThread::RadioThread) {
            return;
        }
        let snr = match front.snr {
            Some(x) => if x.in_range_exec() {
                Some(x)
            } else {
                None
            },
            None => None,
        };
        assert(snr == usable_snr(radio@[0]));
        let settings = self.node_settings[node_id];
        let delay = backoff_delay(&mut self.rng, snr, busy, look_back, settings.bandwidth, settings.sf);
        let ghost before = *self;
        self.notify_later(node_id, delay, Notification::TransmitDelayCompleted, NodeThread::RadioThread, false);
        proof {
            assert(before.notify_status@ == old(self).notify_status@);
            assert(before.sim_time == old(self).sim_time);
            assert(notified(before, *self, node_id, delay@, Notification::TransmitDelayCompleted, NodeThread::RadioThread, false));
            let table = old(self).notify_status@[node_id as int];
            let st = table.entry(NodeThread::RadioThread)->Some_0;
            let fire = st.at_time@ < old(self).sim_time@ || st.notification is None;
            if fire {
                assert(self.notify_status@[node_id as int] == table.with_entry(
                    NodeThread::RadioThread,
                    Some(crate::notify::NotifyStatus { notification: Some(Notification::TransmitDelayCompleted), at_time: Time { micros: later_spec(old(self).sim_time@, delay@) as u64 } }),
                ));
            }
            assert(notified(*old(self), *self, node_id, delay@, Notification::TransmitDelayCompleted, NodeThread::RadioThread, false));
        }
    }

    /// The radio thread of `node_id` wakes after its backoff: with nothing
    /// queued it idles; while the node transmits or detects the channel in use
    /// (`channel_in_use`) it backs off again; otherwise it takes the first
    /// packet off the queue, queues its send after the node's reaction time,
    /// and backs off again for the next.
    pub fn radio_thread_step(
        &mut self,
        node_id: usize,
        radio: &mut RadioInterface,
        channel_in_use: bool,
        busy: u64,
        look_back: u64,
    ) -> (r: RadioAction)
        requires
            old(self).wf(),
            node_id < old(self).node_settings@.len(),
            busy <= look_back,
            0 < look_back <= u64::MAX / 5,
        ensures
            final(self).wf(),
            final(self).sim_time == old(self).sim_time,
            final(self).em_field@ == old(self).em_field@,
            final(self).logs@ == old(self).logs@,
            final(self).node_settings@ == old(self).node_settings@,
            r matches RadioAction::Transmit(p) ==> (content_ok(old(self).test_messages@, p.message_content)
                && old(self).event_queue.next_seq < u64::MAX ==> final(self).event_queue@.len() > old(self).event_queue@.len()
                && final(self).event_queue@[old(self).event_queue@.len() as int].event == (SimEvent {
                time: Time {
                    micros: later_spec(old(self).sim_time@, old(self).node_settings@[node_id as int].reaction_time@) as u64,
                },
                action: SimAction::SendMessage { node_id, header: p.header, message_content: p.message_content },
            })),
            !(r is Idle) && final(radio)@.len() > 0 && old(self).notify_status@[node_id as int].radio is Some
                ==> (final(self).notify_status@[node_id as int].radio matches Some(st) && st.notification is Some),
            ({
                let transmitting = exists|i: int|
                    0 <= i < old(self).em_field@.len() && old(self).em_field@[i].end_time@ >= old(self).sim_time@
                        && old(self).em_field@[i].transmitter_id == node_id;
                &&& old(radio)@.len() == 0 ==> r == RadioAction::Idle && final(radio)@ == old(radio)@
                &&& old(radio)@.len() > 0 && (transmitting || channel_in_use) ==> r == RadioAction::Defer
                    && final(radio)@ == old(radio)@
                &&& old(radio)@.len() > 0 && !transmitting && !channel_in_use ==> r == RadioAction::Transmit(
                    old(radio)@[0],
                ) && final(radio)@ == old(radio)@.drop_first()
            }),
    {
        let transmitting = self.is_transmitting(node_id);
        let action = radio.on_transmit_delay_completed(transmitting, channel_in_use);
        match action {
            RadioAction::Idle => {},
            RadioAction::Defer => {
                self.start_backoff(node_id, radio, busy, look_back);
            },
            RadioAction::Transmit(p) => {
                if self.content_known(&p.message_content) {
                    self.enqueue_send(node_id, p.header, p.message_content);
                }
                let ghost q1 = self.event_queue@;
                self.start_backoff(node_id, radio, busy, look_back);
                proof {
                    if content_ok(old(self).test_messages@, p.message_content) && old(self).event_queue.next_seq < u64::MAX {
                        let i = old(self).event_queue@.len() as int;
                        assert(q1.len() > i);
                        assert(self.event_queue@.len() >= q1.len());
                        assert(self.event_queue@[i] == q1[i]);
                    }
                }
            },
        }
        action
    }
}

} // verus!
