use vstd::prelude::*;

use crate::meshtastic::{MeshContext, MeshEffects, MeshPacket, Meshtastic};
use crate::analysis::{LogLevel, LogSource};
use crate::node::{
    NodeError, std_destination_spec, BasicHeader, Header, MeshtasticHeader, MessageContent, NodeThread, Notification,
    DEFAULT_HOP_LIMIT,
};
use crate::events::{QueuedEvent, SimAction, SimEvent};
use crate::radio::StoredPacket;
use crate::routing::{managed_receive_spec, receive_spec, MAX_REBROADCASTS};
use crate::simulation::later_spec;
use crate::meshtastic::pending_has;
use crate::radio::{utilisation_contention_window, RadioInterface};
use crate::routing::{
    routing_delay, AcknowledgedOrRepeatFlood, NoRouting, ProbabilisticFlood, SimpleManagedFlooding,
};
use crate::simulation::{Simulation, SIM_END_MICROS};
use crate::units::{Db, Time};

verus! {

/// What a node observes of the channel at the moment: the busy share
/// `busy / look_back` of its utilisation window, and whether it detects a
/// transmission now.
#[derive(Clone, Copy, Debug, PartialEq, Eq, Structural)]
pub struct ChannelView {
    pub busy: u64,
    pub look_back: u64,
    pub in_use: bool,
}

impl ChannelView {
    pub open spec fn wf(self) -> bool {
        self.busy <= self.look_back && 0 < self.look_back <= u64::MAX / 5
    }
}

/// The model's radio queue; none for a model without one.
pub open spec fn radio_of(m: NodeModel) -> Seq<StoredPacket> {
    match m {
        NodeModel::Meshtastic(x) => x.radio_interface@,
        NodeModel::AcknowledgedOrRepeatFlood(x) => x.radio_interface@,
        NodeModel::NoRouting(_) => Seq::empty(),
        NodeModel::ProbabilisticFlood(x) => x.radio_interface@,
        NodeModel::SimpleManagedFlooding(x) => x.radio_interface@,
    }
}

/// A radio backoff of `node_id` is pending in `sim`, where its radio thread
/// was registered in `before`.
pub open spec fn backoff_pending(before: Simulation, sim: Simulation, node_id: usize) -> bool {
    before.notify_status@[node_id as int].radio is Some ==> (sim.notify_status@[node_id as int].radio matches Some(
        st,
    ) && st.notification is Some)
}

/// The routing protocols a node can run.
pub enum NodeModel {
    Meshtastic(Meshtastic),
    AcknowledgedOrRepeatFlood(AcknowledgedOrRepeatFlood),
    NoRouting(NoRouting),
    ProbabilisticFlood(ProbabilisticFlood),
    SimpleManagedFlooding(SimpleManagedFlooding),
}

impl NodeModel {
    pub open spec fn wf(&self) -> bool {
        match self {
            NodeModel::Meshtastic(m) => m.wf(),
            _ => true,
        }
    }

    /// The protocol's name and version.
    pub fn identity_str(&self) -> &'static str {
        match self {
            NodeModel::Meshtastic(m) => m.identity_str(),
            NodeModel::AcknowledgedOrRepeatFlood(m) => m.identity_str(),
            NodeModel::NoRouting(m) => m.identity_str(),
            NodeModel::ProbabilisticFlood(m) => m.identity_str(),
            NodeModel::SimpleManagedFlooding(m) => m.identity_str(),
        }
    }

    fn radio(&self) -> (r: Option<&RadioInterface>) {
        match self {
            NodeModel::Meshtastic(m) => Some(&m.radio_interface),
            NodeModel::AcknowledgedOrRepeatFlood(m) => Some(&m.radio_interface),
            NodeModel::NoRouting(_) => None,
            NodeModel::ProbabilisticFlood(m) => Some(&m.radio_interface),
            NodeModel::SimpleManagedFlooding(m) => Some(&m.radio_interface),
        }
    }

    /// Starts the radio backoff for what the model has queued.
    fn backoff(&self, sim: &mut Simulation, node_id: usize, view: ChannelView)
        requires
            old(sim).wf(),
            node_id < old(sim).node_settings@.len(),
            view.wf(),
        ensures
            final(sim).wf(),
            final(sim).node_settings@ == old(sim).node_settings@,
    {
        match self.radio() {
            Some(radio) => sim.start_backoff(node_id, radio, view.busy, view.look_back),
            None => {},
        }
    }

    /// The Meshtastic model's view of its node, where the node's clock is
    /// still inside the run.
    fn mesh_context(sim: &Simulation, node_id: usize, view: ChannelView) -> (r: Option<MeshContext>)
        requires
            sim.wf(),
            node_id < sim.node_settings@.len(),
            view.wf(),
        ensures
            r matches Some(c) ==> c.wf() && c.node_id == node_id,
            later_spec(sim.sim_time@, sim.node_settings@[node_id as int].clock_offset@) < SIM_END_MICROS ==> r is Some,
    {
        let now = sim.clock_time(node_id);
        if now.micros >= SIM_END_MICROS {
            return None;
        }
        let cw = utilisation_contention_window(view.busy, view.look_back);
        assert(crate::simulation::settings_ok(sim.node_settings@[node_id as int]));
        Some(MeshContext { node_id, now, settings: sim.node_settings[node_id], cw })
    }

    /// Carries out what the Meshtastic model asked for.
    fn apply(&self, sim: &mut Simulation, node_id: usize, effects: MeshEffects, view: ChannelView)
        requires
            old(sim).wf(),
            node_id < old(sim).node_settings@.len(),
            view.wf(),
        ensures
            final(sim).wf(),
            final(sim).node_settings@ == old(sim).node_settings@,
    {
        if effects.notify_routing && sim.is_registered(node_id, NodeThread::RoutingThread) {
            sim.notify_later(node_id, Time::from_imilis(1), Notification::Routing, NodeThread::RoutingThread, true);
        }
        if effects.radio_send {
            self.backoff(sim, node_id, view);
        }
    }

    /// Called once at the start: registers the threads the model runs, and
    /// starts acknowledged-or-repeat flooding's routing thread.
    pub fn initialise(&mut self, sim: &mut Simulation, node_id: usize)
        requires
            old(sim).wf(),
            node_id < old(sim).node_settings@.len(),
        ensures
            final(sim).wf(),
            final(sim).node_settings@ == old(sim).node_settings@,
            *final(self) == *old(self),
            !(*old(self) is NoRouting) ==> final(sim).notify_status@[node_id as int].radio is Some,
            (*old(self) is Meshtastic || *old(self) is AcknowledgedOrRepeatFlood) ==> final(sim).notify_status@[node_id as int].routing is Some,
    {
        match self {
            NodeModel::NoRouting(_) => {},
            NodeModel::AcknowledgedOrRepeatFlood(_) => {
                sim.register_thread(node_id, NodeThread::RadioThread);
                sim.register_thread(node_id, NodeThread::RoutingThread);
                let d = routing_delay(&mut sim.rng);
                sim.notify_later(node_id, d, Notification::Routing, NodeThread::RoutingThread, true);
            },
            NodeModel::Meshtastic(_) => {
                sim.register_thread(node_id, NodeThread::RadioThread);
                sim.register_thread(node_id, NodeThread::RoutingThread);
            },
            _ => {
                sim.register_thread(node_id, NodeThread::RadioThread);
            },
        }
    }

    /// The simulation refused a send of `node_id`'s because its radio was busy:
    /// the model logs it as an error and drops the packet.
    pub fn handle_error(&self, sim: &mut Simulation, node_id: usize, error: NodeError)
        requires
            old(sim).wf(),
        ensures
            final(sim).wf(),
            final(sim).event_queue@ == old(sim).event_queue@,
            final(sim).em_field@ == old(sim).em_field@,
            final(sim).node_settings@ == old(sim).node_settings@,
            final(sim).notify_status@ == old(sim).notify_status@,
            old(sim).do_node_logs ==> final(sim).logs@.len() == old(sim).logs@.len() + 1
                && final(sim).logs@.last().log_level == LogLevel::Error
                && final(sim).logs@.last().source == LogSource::Node(node_id),
            !old(sim).do_node_logs ==> final(sim).logs@ == old(sim).logs@,
    {
        let text = match self {
            NodeModel::NoRouting(_) => "Radio Busy! The packet was dropped".to_owned(),
            _ => "Radio busy error".to_owned(),
        };
        match error {
            NodeError::RadioBusyError(_, _) => sim.log(node_id, text, LogLevel::Error),
        }
    }

    /// A user at `node_id` hands over message `message_id`.
    pub fn generate_message(&mut self, sim: &mut Simulation, node_id: usize, message_id: usize, view: ChannelView)
        requires
            old(sim).wf(),
            old(self).wf(),
            node_id < old(sim).node_settings@.len(),
            message_id < old(sim).test_messages@.len(),
            view.wf(),
        ensures
            final(sim).wf(),
            final(self).wf(),
            final(sim).node_settings@ == old(sim).node_settings@,
            ({
                let info = old(sim).test_messages@[message_id as int];
                let dest = std_destination_spec(info.targets@);
                let content = MessageContent::GeneratedMessage(message_id);
                &&& *old(self) matches NodeModel::NoRouting(m0) ==> (m0.next_packet_id < u32::MAX
                    && old(sim).event_queue.next_seq < u64::MAX ==> final(sim).event_queue@ == old(sim).event_queue@.push(
                    QueuedEvent {
                        event: SimEvent {
                            time: Time {
                                micros: later_spec(old(sim).sim_time@, old(sim).node_settings@[node_id as int].reaction_time@) as u64,
                            },
                            action: SimAction::SendMessage {
                                node_id,
                                header: Header::Basic(BasicHeader { dest, sender: node_id, packet_id: m0.next_packet_id }),
                                message_content: content,
                            },
                        },
                        seq: old(sim).event_queue.next_seq,
                    },
                ))
                &&& *old(self) matches NodeModel::SimpleManagedFlooding(m0) ==> (m0.next_packet_id < u32::MAX ==> (
                *final(self) matches NodeModel::SimpleManagedFlooding(m1) && m1.radio_interface@ == m0.radio_interface@.push(
                    StoredPacket {
                        header: Header::Basic(BasicHeader { dest, sender: node_id, packet_id: m0.next_packet_id }),
                        message_content: content,
                        size: info.size,
                        snr: None,
                    },
                ) && backoff_pending(*old(sim), *final(sim), node_id)))
                &&& *old(self) matches NodeModel::ProbabilisticFlood(m0) ==> (m0.next_packet_id < u32::MAX ==> (
                *final(self) matches NodeModel::ProbabilisticFlood(m1) && m1.radio_interface@ == m0.radio_interface@.push(
                    StoredPacket {
                        header: Header::Meshtastic(
                            MeshtasticHeader {
                                dest,
                                sender: node_id,
                                packet_id: m0.next_packet_id,
                                hop_limit: DEFAULT_HOP_LIMIT,
                                hop_start: DEFAULT_HOP_LIMIT,
                                want_ack: true,
                            },
                        ),
                        message_content: content,
                        size: info.size,
                        snr: None,
                    },
                ) && backoff_pending(*old(sim), *final(sim), node_id)))
                &&& *old(self) matches NodeModel::AcknowledgedOrRepeatFlood(m0) ==> (m0.next_packet_id < u32::MAX ==> (
                *final(self) matches NodeModel::AcknowledgedOrRepeatFlood(m1) && m1.rebroadcasts@ == seq![
                    (
                        StoredPacket {
                            header: Header::Basic(BasicHeader { dest, sender: node_id, packet_id: m0.next_packet_id }),
                            message_content: content,
                            size: info.size,
                            snr: None,
                        },
                        MAX_REBROADCASTS,
                    ),
                ] + m0.rebroadcasts@))
                &&& *old(self) matches NodeModel::Meshtastic(m0) ==> (m0.next_packet_id < u32::MAX && later_spec(
                    old(sim).sim_time@,
                    old(sim).node_settings@[node_id as int].clock_offset@,
                ) < SIM_END_MICROS ==> (*final(self) matches NodeModel::Meshtastic(m1) && m1.next_packet_id
                    == m0.next_packet_id + 1 && (dest != crate::node::Destination::Node(node_id) ==> pending_has(
                    m1.pending@,
                    crate::node::GlobalPacketId { node_id, packet_id: m0.next_packet_id },
                ))))
            }),
    {
        let content = MessageContent::GeneratedMessage(message_id);
        assert(0 <= sim.test_messages@[message_id as int].size <= crate::simulation::MAX_MESSAGE_SIZE);
        match self {
            NodeModel::NoRouting(m) => {
                if m.next_packet_id < u32::MAX {
                    let (header, c) = m.generate_message(node_id, content, &sim.test_messages[message_id]);
                    sim.enqueue_send(node_id, Header::Basic(header), c);
                }
            },
            NodeModel::SimpleManagedFlooding(m) => {
                if m.next_packet_id < u32::MAX {
                    m.generate_message(node_id, content, &sim.test_messages[message_id]);
                    sim.start_backoff(node_id, &m.radio_interface, view.busy, view.look_back);
                }
            },
            NodeModel::ProbabilisticFlood(m) => {
                if m.next_packet_id < u32::MAX {
                    m.generate_message(node_id, content, &sim.test_messages[message_id]);
                    sim.start_backoff(node_id, &m.radio_interface, view.busy, view.look_back);
                }
            },
            NodeModel::AcknowledgedOrRepeatFlood(m) => {
                if m.next_packet_id < u32::MAX {
                    m.generate_message(node_id, content, &sim.test_messages[message_id]);
                }
            },
            NodeModel::Meshtastic(m) => {
                match Self::mesh_context(sim, node_id, view) {
                    Some(ctx) => {
                        if m.next_packet_id < u32::MAX {
                            let mut effects = MeshEffects { notify_routing: false, radio_send: false };
                            m.generate_message(&ctx, content, &sim.test_messages[message_id], &mut effects);
                            if effects.notify_routing && sim.is_registered(node_id, NodeThread::RoutingThread) {
                                sim.notify_later(node_id, Time::from_imilis(1), Notification::Routing, NodeThread::RoutingThread, true);
                            }
                            if effects.radio_send {
                                sim.start_backoff(node_id, &m.radio_interface, view.busy, view.look_back);
                            }
                        }
                    },
                    None => {},
                }
            },
        }
    }
}

/// Whether `p` meets `MeshPacket::size_ok`.
fn mesh_packet_ok(p: &MeshPacket) -> (r: bool)
    ensures
        r == p.size_ok(),
{
    0 <= p.size && p.size <= crate::simulation::MAX_MESSAGE_SIZE && 0 <= p.header.hop_limit
        && p.header.hop_limit <= 1000 && 0 <= p.header.hop_start && p.header.hop_start <= 1000
}

/// Whether every packet the Meshtastic model awaits acknowledgment of is
/// from node `node_id`.
fn own_pending(m: &Meshtastic, node_id: usize) -> (r: bool)
    ensures
        r == forall|i: int| 0 <= i < m.pending@.len() ==> (#[trigger] m.pending@[i]).0.node_id == node_id,
{
    let mut i: usize = 0;
    while i < m.pending.len()
        invariant
            i <= m.pending@.len(),
            forall|j: int| 0 <= j < i ==> (#[trigger] m.pending@[j]).0.node_id == node_id,
        decreases m.pending@.len() - i,
    {
        if m.pending[i].0.node_id != node_id {
            return false;
        }
        i += 1;
    }
    true
}

/// Whether the Meshtastic model has packet ids left for a routing run.
fn ids_left(m: &Meshtastic) -> (r: bool)
    ensures
        r == m.ids_left(),
{
    let waiting = m.from_radio_queue.len() as u128 + m.pending.len() as u128;
    (m.next_packet_id as u128) + 5 * waiting + 5 < u32::MAX as u128
}

impl NodeModel {
    /// Node `node_id` read a packet at `snr`: the model decides what to do,
    /// and a backoff starts for whatever it queued.
    pub fn receive_message(
        &mut self,
        sim: &mut Simulation,
        node_id: usize,
        header: Header,
        message_content: MessageContent,
        payload_size: i32,
        snr: Db,
        view: ChannelView,
    )
        requires
            old(sim).wf(),
            old(self).wf(),
            node_id < old(sim).node_settings@.len(),
            view.wf(),
        ensures
            final(sim).wf(),
            final(self).wf(),
            final(sim).node_settings@ == old(sim).node_settings@,
            *old(self) is NoRouting ==> *final(self) == *old(self),
            *old(self) matches NodeModel::SimpleManagedFlooding(m0) ==> (header matches Header::Basic(h) ==> (
            *final(self) matches NodeModel::SimpleManagedFlooding(m1) && exists|r: bool|
                #[trigger] managed_receive_spec(m0, m1, node_id, h, message_content, payload_size, snr, r) && (r
                    ==> backoff_pending(*old(sim), *final(sim), node_id)))),
            *old(self) matches NodeModel::ProbabilisticFlood(m0) ==> (header matches Header::Meshtastic(h) ==> (
            h.hop_limit > i32::MIN && h.hop_start - h.hop_limit <= i32::MAX && h.hop_start - h.hop_limit >= i32::MIN ==> (
            *final(self) matches NodeModel::ProbabilisticFlood(m1) && exists|draw: u32, r: bool|
                draw < 1000 && #[trigger] receive_spec(m0, m1, node_id, h, message_content, payload_size, snr, draw, r) && (
                r ==> backoff_pending(*old(sim), *final(sim), node_id))))),
            *old(self) matches NodeModel::Meshtastic(m0) ==> (header matches Header::Meshtastic(h) ==> ((MeshPacket {
                header: h,
                message_content,
                size: payload_size,
                snr: Some(snr),
            }).size_ok() ==> (*final(self) matches NodeModel::Meshtastic(m1) && m1.from_radio_queue@ == m0.from_radio_queue@.push(
                MeshPacket { header: h, message_content, size: payload_size, snr: Some(snr) },
            )))),
    {
        let ghost mut rr: bool = false;
        let ghost mut dd: u32 = 0;
        match (&mut *self, header) {
            (NodeModel::SimpleManagedFlooding(m), Header::Basic(h)) => {
                let ghost m0 = *m;
                let ghost s0 = *sim;
                let r = m.receive_message(node_id, h, message_content, payload_size, snr);
                if r {
                    assert(m.radio_interface@.len() > 0);
                    sim.start_backoff(node_id, &m.radio_interface, view.busy, view.look_back);
                    assert(backoff_pending(s0, *sim, node_id));
                }
                assert(managed_receive_spec(m0, *m, node_id, h, message_content, payload_size, snr, r));
                assert(r ==> backoff_pending(s0, *sim, node_id));
                proof {
                    rr = r;
                }
            },
            (NodeModel::ProbabilisticFlood(m), Header::Meshtastic(h)) => {
                let ok = h.hop_limit > i32::MIN && (h.hop_start as i64 - h.hop_limit as i64) <= i32::MAX as i64
                    && (h.hop_start as i64 - h.hop_limit as i64) >= i32::MIN as i64;
                if ok {
                    let ghost m0 = *m;
                    let r = m.receive_message(&mut sim.rng, node_id, h, message_content, payload_size, snr);
                    let ghost s0 = *sim;
                    if r {
                        assert(m.radio_interface@.len() > 0);
                        sim.start_backoff(node_id, &m.radio_interface, view.busy, view.look_back);
                        assert(backoff_pending(s0, *sim, node_id));
                    }
                    let ghost draw = choose|draw: u32| draw < 1000 && receive_spec(m0, *m, node_id, h, message_content, payload_size, snr, draw, r);
                    assert(receive_spec(m0, *m, node_id, h, message_content, payload_size, snr, draw, r));
                    proof {
                        rr = r;
                        dd = draw;
                    }
                }
            },
            (NodeModel::AcknowledgedOrRepeatFlood(m), Header::Basic(h)) => {
                if m.next_packet_id < u32::MAX && m.receive_message(node_id, h, message_content, payload_size, snr) {
                    sim.start_backoff(node_id, &m.radio_interface, view.busy, view.look_back);
                }
            },
            (NodeModel::Meshtastic(m), Header::Meshtastic(h)) => {
                let packet = MeshPacket { header: h, message_content, size: payload_size, snr: Some(snr) };
                if mesh_packet_ok(&packet) {
                    m.receive_message(packet);
                    if sim.is_registered(node_id, NodeThread::RoutingThread) {
                        sim.notify_later(node_id, Time::from_imilis(1), Notification::Routing, NodeThread::RoutingThread, true);
                    }
                }
            },
            _ => {},
        }
        proof {
            if let NodeModel::SimpleManagedFlooding(m0) = *old(self) {
                if let Header::Basic(h) = header {
                    assert(managed_receive_spec(m0, self->SimpleManagedFlooding_0, node_id, h, message_content, payload_size, snr, rr));
                }
            }
            if let NodeModel::ProbabilisticFlood(m0) = *old(self) {
                if let Header::Meshtastic(h) = header {
                    if h.hop_limit > i32::MIN && h.hop_start - h.hop_limit <= i32::MAX && h.hop_start - h.hop_limit >= i32::MIN {
                        assert(receive_spec(m0, self->ProbabilisticFlood_0, node_id, h, message_content, payload_size, snr, dd, rr));
                    }
                }
            }
        }
    }

    /// A simulated thread of node `node_id` wakes with `notification`: the
    /// radio thread runs its step; the routing thread of acknowledged-or-repeat
    /// flooding sends its next repeat and sleeps a random while, that of
    /// Meshtastic retries and routes, then sleeps until the next retry.
    pub fn get_notified(&mut self, sim: &mut Simulation, node_id: usize, notification: Notification, view: ChannelView)
        requires
            old(sim).wf(),
            old(self).wf(),
            node_id < old(sim).node_settings@.len(),
            view.wf(),
        ensures
            final(sim).wf(),
            final(self).wf(),
            final(sim).node_settings@ == old(sim).node_settings@,
            notification == Notification::TransmitDelayCompleted ==> ({
                let q0 = radio_of(*old(self));
                let transmitting = exists|i: int|
                    0 <= i < old(sim).em_field@.len() && old(sim).em_field@[i].end_time@ >= old(sim).sim_time@
                        && old(sim).em_field@[i].transmitter_id == node_id;
                &&& q0.len() == 0 || transmitting || view.in_use ==> radio_of(*final(self)) == q0
                &&& q0.len() > 0 && !transmitting && !view.in_use ==> radio_of(*final(self)) == q0.drop_first()
            }),
            notification == Notification::Routing ==> (*old(self) matches NodeModel::AcknowledgedOrRepeatFlood(m0) ==> (
            m0.rebroadcasts@.len() > 0 ==> radio_of(*final(self)) == m0.radio_interface@.push(m0.rebroadcasts@[0].0))),
    {
        match notification {
            Notification::TransmitDelayCompleted => {
                match self {
                    NodeModel::Meshtastic(m) => {
                        let ghost q = m.from_radio_queue@;
                        let ghost p = m.pending@;
                        sim.radio_thread_step(node_id, &mut m.radio_interface, view.in_use, view.busy, view.look_back);
                        assert(m.from_radio_queue@ == q && m.pending@ == p);
                    },
                    NodeModel::AcknowledgedOrRepeatFlood(m) => {
                        sim.radio_thread_step(node_id, &mut m.radio_interface, view.in_use, view.busy, view.look_back);
                    },
                    NodeModel::ProbabilisticFlood(m) => {
                        sim.radio_thread_step(node_id, &mut m.radio_interface, view.in_use, view.busy, view.look_back);
                    },
                    NodeModel::SimpleManagedFlooding(m) => {
                        sim.radio_thread_step(node_id, &mut m.radio_interface, view.in_use, view.busy, view.look_back);
                    },
                    NodeModel::NoRouting(_) => {},
                }
            },
            Notification::Routing => {
                match self {
                    NodeModel::AcknowledgedOrRepeatFlood(m) => {
                        if m.run_routing_thread() {
                            sim.start_backoff(node_id, &m.radio_interface, view.busy, view.look_back);
                        }
                        if sim.is_registered(node_id, NodeThread::RoutingThread) {
                            let d = routing_delay(&mut sim.rng);
                            sim.notify_later(node_id, d, Notification::Routing, NodeThread::RoutingThread, true);
                        }
                    },
                    NodeModel::Meshtastic(m) => {
                        match Self::mesh_context(sim, node_id, view) {
                            Some(ctx) => {
                                if ids_left(m) && own_pending(m, node_id) {
                                    let mut effects = MeshEffects { notify_routing: false, radio_send: false };
                                    let next = m.run_routing_thread(&ctx, &mut effects);
                                    if effects.notify_routing && sim.is_registered(node_id, NodeThread::RoutingThread) {
                                        sim.notify_later(node_id, Time::from_imilis(1), Notification::Routing, NodeThread::RoutingThread, true);
                                    }
                                    if effects.radio_send {
                                        sim.start_backoff(node_id, &m.radio_interface, view.busy, view.look_back);
                                    }
                                    match next {
                                        Some(d) => {
                                            if sim.is_registered(node_id, NodeThread::RoutingThread) {
                                                sim.notify_later(node_id, d, Notification::Routing, NodeThread::RoutingThread, true);
                                            }
                                        },
                                        None => {},
                                    }
                                }
                            },
                            None => {},
                        }
                    },
                    _ => {},
                }
            },
            _ => {},
        }
    }
}

} // verus!
