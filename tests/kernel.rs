use frogcore::analysis::{
    reception_rate, resolve_receptions,
    latency_score, threshold_reception, wanted_messages, LogContent, Reception, WantedMessage,
};
use frogcore::events::SimAction;
use frogcore::capture::{detecting_any_at, observed_utilisation};
use frogcore::meshtastic::{MeshContext, MeshEffects, MeshPacket, Meshtastic};
use frogcore::models::{ChannelView, NodeModel};
use frogcore::routing::{ProbabilisticFlood, SimpleManagedFlooding};
use frogcore::node::{
    BasicHeader, CustomContent, Destination, GlobalPacketId, Header, MeshtasticHeader,
    MessageContent, MessageInfo, NodeError, NodeThread, Notification, RoutingStatus,
};
use frogcore::node_location::{Edge, Graph, NodeLocation, Point, Points, Timepoint};
use frogcore::radio::{RadioAction, RadioInterface, StoredPacket};
use frogcore::routing::AcknowledgedOrRepeatFlood;
use frogcore::scenario::{ScenarioMessage, ScenarioNodeSettings};
use frogcore::settings::{CarrierBand, NodeSettings};
use frogcore::simulation::Simulation;
use frogcore::units::{Db, Frequency, Length, Time};
use rand::{Rng, SeedableRng};
use rand_chacha::ChaCha12Rng;

fn line(n: i32, spacing_m: i32) -> NodeLocation {
    let pts = (0..n)
        .map(|i| Point { x: Length::from_imetres(i * spacing_m), y: Length::from_imetres(0) })
        .collect();
    NodeLocation::Points(Points::new(vec![Timepoint { time: Time::from_micros(0), node_points: pts }]))
}

fn sim_of(topology: NodeLocation) -> Simulation {
    let n = topology.len();
    Simulation::new(topology, (0..n).map(|_| ScenarioNodeSettings::standard()).collect(), 0, true)
}

fn basic(sender: usize, id: u32) -> Header {
    Header::Basic(BasicHeader { dest: Destination::Broadcast, sender, packet_id: id })
}

#[test]
fn single_broadcast_is_received_by_all() {
    let mut sim = sim_of(line(3, 1000));
    let id = sim.enqueue_message_generation(ScenarioMessage::new(0, vec![1, 2], Time::from_iseconds(1), 20));
    assert_eq!(id, 0);
    let e = sim.next_event().unwrap();
    assert_eq!(e.action, SimAction::GenerateMessage { node_id: 0, message_id: 0 });
    assert_eq!(sim.sim_time, Time::from_iseconds(1));
    sim.enqueue_send(0, basic(0, 0), MessageContent::GeneratedMessage(0));
    let e = sim.next_event().unwrap();
    // Reaction time of 0.1 ms.
    assert_eq!(e.time.micros, 1_000_100);
    assert!(sim.try_broadcast(0, basic(0, 0), MessageContent::GeneratedMessage(0)).is_ok());
    assert!(sim.is_transmitting(0));
    let t = sim.em_field.transmissions[0];
    assert!(matches!(sim.logs[0].content, LogContent::TransmissionSent { sender_id: 0, transmission_id: 0 }));
    // 36 bytes on air: 8 + ceil(288 * 5 / 44) = 41 payload symbols.
    assert_eq!(t.end_time.micros - t.start_time.micros, (81 + 4 * 41) * 2048);
    let mut receivers = Vec::new();
    while let Some(e) = sim.next_event() {
        if let SimAction::RecieveMessage { node_id, transmission_id } = e.action {
            assert_eq!(e.time, t.end_time);
            let powers = vec![Db::from_db(-70)];
            let r = sim.receive_message(node_id, transmission_id, Db::from_db(-70), &powers, Db::from_db(-120));
            let (h, c, size, snr) = r.unwrap();
            assert_eq!((h, c, size, snr), (basic(0, 0), MessageContent::GeneratedMessage(0), 20, Db::from_db(20)));
            receivers.push(node_id);
        }
    }
    receivers.sort();
    assert_eq!(receivers, vec![1, 2]);
    assert_eq!(sim.logs.len(), 3);
}

#[test]
fn busy_sender_gets_error_in_kernel() {
    let mut sim = sim_of(line(2, 100));
    sim.enqueue_message_generation(ScenarioMessage::new(0, vec![1], Time::from_iseconds(1), 10));
    sim.next_event();
    assert!(sim.try_broadcast(0, basic(0, 0), MessageContent::Empty).is_ok());
    let r = sim.try_broadcast(0, basic(0, 1), MessageContent::Empty);
    assert_eq!(r, Err(NodeError::RadioBusyError(basic(0, 1), MessageContent::Empty)));
    assert_eq!(sim.em_field.transmissions.len(), 1);
}

#[test]
fn capture_picks_the_stronger_in_kernel() {
    let mut sim = sim_of(line(3, 100));
    sim.enqueue_message_generation(ScenarioMessage::new(0, vec![1], Time::from_iseconds(1), 10));
    sim.next_event();
    assert!(sim.try_broadcast(0, basic(0, 0), MessageContent::Empty).is_ok());
    assert!(sim.try_broadcast(2, basic(2, 0), MessageContent::Empty).is_ok());
    let mut outcomes = Vec::new();
    while let Some(e) = sim.next_event() {
        if let SimAction::RecieveMessage { node_id: 1, transmission_id } = e.action {
            // Transmission 0 arrives 10 dB stronger than transmission 1.
            let powers: Vec<Db> = sim
                .em_field
                .transmissions
                .iter()
                .map(|t| if t.id == 0 { Db::from_db(-60) } else { Db::from_db(-70) })
                .collect();
            let own = if transmission_id == 0 { -60 } else { -70 };
            outcomes.push((transmission_id, sim.receive_message(1, transmission_id, Db::from_db(own), &powers, Db::from_db(-120)).is_some()));
        }
    }
    outcomes.sort();
    assert_eq!(outcomes, vec![(0, true), (1, false)]);
    assert!(sim.logs.iter().any(|l| matches!(
        l.content,
        LogContent::TransmissionBlocked { receiver_id: 1, target_transmission_id: 1, blocking_transmission_id: 0 }
    )));
}

#[test]
fn isolated_node_is_never_reached() {
    let edges = vec![
        vec![Edge { to: 1, weight: Length::from_imetres(100) }],
        vec![Edge { to: 0, weight: Length::from_imetres(100) }],
        vec![],
    ];
    let g = Graph::new(edges);
    assert_eq!(g.distance_to(0, 1), Some(Length::from_imetres(100)));
    assert_eq!(g.distance_to(0, 2), None);
    let mut sim = sim_of(NodeLocation::Graph(g));
    sim.enqueue_message_generation(ScenarioMessage::new(0, vec![2], Time::from_iseconds(1), 10));
    sim.next_event();
    assert!(sim.try_broadcast(0, basic(0, 0), MessageContent::GeneratedMessage(0)).is_ok());
    let mut reached = Vec::new();
    while let Some(e) = sim.next_event() {
        if let SimAction::RecieveMessage { node_id, .. } = e.action {
            reached.push(node_id);
        }
    }
    assert_eq!(reached, vec![1]);
}

#[test]
fn notifications_through_kernel() {
    let mut sim = sim_of(line(2, 100));
    sim.register_thread(0, NodeThread::RoutingThread);
    sim.notify_later(0, Time::from_imilis(5), Notification::Routing, NodeThread::RoutingThread, false);
    sim.notify_later(0, Time::from_imilis(2), Notification::Routing, NodeThread::RoutingThread, true);
    let first = sim.next_event().unwrap();
    assert_eq!(first.time.micros, 2000);
    assert_eq!(sim.maybe_notify(0, NodeThread::RoutingThread), Some(Notification::Routing));
    let second = sim.next_event().unwrap();
    assert_eq!(second.time.micros, 5000);
    assert_eq!(sim.maybe_notify(0, NodeThread::RoutingThread), None);
}

#[test]
fn run_ends_at_cutoff() {
    let mut sim = sim_of(line(2, 100));
    sim.enqueue_message_generation(ScenarioMessage::new(0, vec![1], Time::from_iseconds(5 * 3600), 10));
    assert!(sim.next_event().is_none());
    assert!(sim.finished);
    assert_eq!(sim.sim_time, Time::from_iseconds(5 * 3600));
    assert!(sim.event_queue.is_empty());
    assert!(sim.next_event().is_none());
}

#[test]
fn settings_changes_through_kernel() {
    let mut sim = sim_of(line(2, 100));
    assert!(sim.change_sf(0, 12).is_ok());
    assert_eq!(sim.node_settings[0].sf, 12);
    assert!(sim.change_sf(0, 4).is_err());
    assert!(sim.change_coding_rate(1, 3).is_err());
    assert!(sim.change_power(1, Db::from_db(30)).is_err());
    assert!(sim.change_power(1, Db::from_db(14)).is_ok());
}

#[test]
fn points_interpolate_between_frames() {
    let frames = vec![
        Timepoint { time: Time::from_iseconds(0), node_points: vec![
            Point { x: Length::from_imetres(0), y: Length::from_imetres(0) },
            Point { x: Length::from_imetres(300), y: Length::from_imetres(400) },
        ] },
        Timepoint { time: Time::from_iseconds(10), node_points: vec![
            Point { x: Length::from_imetres(100), y: Length::from_imetres(0) },
            Point { x: Length::from_imetres(300), y: Length::from_imetres(400) },
        ] },
    ];
    let p = Points::new(frames);
    assert_eq!(p.location(Time::from_iseconds(5), 0).x, Length::from_imetres(50));
    assert_eq!(p.location(Time::from_iseconds(20), 0).x, Length::from_imetres(100));
    assert_eq!(p.distance_to(Time::from_iseconds(0), 0, 1), Length::from_imetres(500));
    assert_eq!(p.distance_to(Time::from_iseconds(0), 1, 1).nanometres, 50_000_000);
    assert_eq!(p.get_adj(0), vec![1]);
    let pt = Point { x: Length::from_imetres(30), y: Length::from_imetres(40) };
    assert_eq!(pt.mag(), Length::from_imetres(50));
    let c = pt.clamp_mag(Length::from_imetres(5));
    assert_eq!((c.x, c.y), (Length::from_imetres(3), Length::from_imetres(4)));
    assert_eq!(pt.clamp_mag(Length::from_imetres(60)), pt);
}

fn metres(m: f64) -> Length {
    Length::from_nanometres((m * 1e9).round() as i64)
}

/// Checks two values are within 0.001% of each other.
fn assert_close(a: f64, b: f64) {
    if a == 0.0 || b == 0.0 {
        assert!(a == b, "{a:?} and {b:?} are not close.");
        return;
    }
    assert!((a - b).abs() / a.abs() < 0.00001, "{a:?} and {b:?} are not close.");
}

#[test]
fn points_len() {
    let points = Points::new(vec![Timepoint {
        time: Time::from_iseconds(0),
        node_points: vec![
            Point { x: metres(2.0), y: metres(10.0) },
            Point { x: metres(5.0), y: metres(7.5) },
        ],
    }]);

    assert_eq!(points.len(), 2);

    let points = Points::new(vec![Timepoint {
        time: Time::from_iseconds(0),
        node_points: (0..25).map(|_| Point { x: metres(2.0), y: metres(60.3) }).collect(),
    }]);

    assert_eq!(points.len(), 25);
}

#[test]
fn display_real_agree() {
    let mut rng = ChaCha12Rng::seed_from_u64(7);
    let points = Points::new(
        (0..5)
            .map(|n| Timepoint {
                time: Time::from_iseconds(n * 60),
                node_points: (0..15)
                    .map(|_| Point {
                        x: metres(rng.random::<f64>() * 5000.0),
                        y: metres(rng.random::<f64>() * 5000.0),
                    })
                    .collect(),
            })
            .collect(),
    );

    let at_time = Time::from_micros(145_300_000);

    let now_points = points.display_locations(at_time);

    for (n, point_a) in now_points.iter().enumerate() {
        for (m, point_b) in now_points.iter().enumerate() {
            let forward = points.distance_to(at_time, n, m).nanometres as f64;
            let reverse = points.distance_to(at_time, m, n).nanometres as f64;

            let dx = (point_a.x.nanometres - point_b.x.nanometres) as f64;
            let dy = (point_a.y.nanometres - point_b.y.nanometres) as f64;
            let dist = (dx * dx + dy * dy).sqrt().max(50_000_000.0);

            assert_close(forward, reverse);
            assert_close(dist, forward);
        }
    }
}

#[test]
fn wavelengths() {
    assert_eq!(CarrierBand::B868.wave_length().nanometres, 344_777_270);
    assert_eq!(Frequency::from_khz(868_000).light_wavelength().nanometres, 345_279_432);
}

fn ctx(node: usize) -> MeshContext {
    MeshContext {
        node_id: node,
        now: Time::from_iseconds(10),
        settings: NodeSettings::from_scenario(ScenarioNodeSettings::standard()),
        cw: 2,
    }
}

fn mesh(dest: Destination, sender: usize, id: u32, hop_limit: i32, hop_start: i32, want_ack: bool, content: MessageContent) -> MeshPacket {
    MeshPacket {
        header: MeshtasticHeader { dest, sender, packet_id: id, hop_limit, hop_start, want_ack },
        message_content: content,
        size: 20,
        snr: Some(Db::from_db(5)),
    }
}

#[test]
fn meshtastic_generation_is_reliable() {
    let mut m = Meshtastic::new();
    let mut fx = MeshEffects { notify_routing: false, radio_send: false };
    let info = MessageInfo { size: 20, targets: vec![3] };
    let p = m.generate_message(&ctx(1), MessageContent::GeneratedMessage(0), &info, &mut fx);
    assert_eq!(p.header.dest, Destination::Node(3));
    assert!(fx.radio_send && fx.notify_routing);
    assert_eq!(m.pending.len(), 1);
    assert_eq!(m.pending[0].1.num_retransmissions, 2);
    assert_eq!(m.radio_interface.tx_queue.len(), 1);
    // An acknowledgment from the destination ends the retries.
    let ack = mesh(Destination::Node(1), 3, 0, 3, 3, false,
        MessageContent::NodeMessage(CustomContent::RoutingMessage { status: RoutingStatus::NotError, about_id: 0 }));
    m.receive_message(ack);
    let mut fx = MeshEffects { notify_routing: false, radio_send: false };
    m.run_routing_thread(&ctx(1), &mut fx);
    assert_eq!(m.pending.len(), 0);
}

#[test]
fn meshtastic_forwards_once_and_drops_duplicates() {
    let mut m = Meshtastic::new();
    let p = mesh(Destination::Broadcast, 0, 7, 2, 3, false, MessageContent::GeneratedMessage(0));
    m.receive_message(p);
    let mut fx = MeshEffects { notify_routing: false, radio_send: false };
    m.run_routing_thread(&ctx(1), &mut fx);
    assert!(fx.radio_send);
    assert_eq!(m.radio_interface.tx_queue.len(), 1);
    match m.radio_interface.tx_queue[0].header {
        Header::Meshtastic(h) => assert_eq!(h.hop_limit, 1),
        _ => unreachable!(),
    }
    // The same packet again cancels the queued forward.
    m.receive_message(p);
    let mut fx = MeshEffects { notify_routing: false, radio_send: false };
    m.run_routing_thread(&ctx(1), &mut fx);
    assert_eq!(m.radio_interface.tx_queue.len(), 0);
    assert!(m.seen_recently.contains(&GlobalPacketId { node_id: 0, packet_id: 7 }));
}

#[test]
fn meshtastic_acknowledges_packets_for_it() {
    let mut m = Meshtastic::new();
    m.receive_message(mesh(Destination::Node(1), 0, 4, 1, 3, true, MessageContent::GeneratedMessage(0)));
    let mut fx = MeshEffects { notify_routing: false, radio_send: false };
    m.run_routing_thread(&ctx(1), &mut fx);
    let ack = m.radio_interface.tx_queue[0];
    match (ack.header, ack.message_content) {
        (Header::Meshtastic(h), MessageContent::NodeMessage(CustomContent::RoutingMessage { status, about_id })) => {
            assert_eq!(h.dest, Destination::Node(0));
            assert_eq!(h.hop_limit, 3);
            assert_eq!((status, about_id), (RoutingStatus::NotError, 4));
        }
        _ => unreachable!(),
    }
}

#[test]
fn meshtastic_gives_up_after_retries() {
    let mut m = Meshtastic::new();
    let mut fx = MeshEffects { notify_routing: false, radio_send: false };
    let info = MessageInfo { size: 20, targets: vec![3, 4] };
    m.generate_message(&ctx(1), MessageContent::GeneratedMessage(0), &info, &mut fx);
    let mut c = ctx(1);
    for _ in 0..3 {
        c.now = Time::from_micros(m.pending.first().map(|p| p.1.next_tx.micros).unwrap_or(c.now.micros));
        let mut fx = MeshEffects { notify_routing: false, radio_send: false };
        m.run_routing_thread(&c, &mut fx);
    }
    assert!(m.pending.is_empty());
    // Sent three times; giving up cancels the copy still queued, and the
    // give-up status to itself is routed in the same run.
    assert_eq!(m.radio_interface.tx_queue.len(), 2);
    assert!(m.from_radio_queue.is_empty());
}

#[test]
fn repeat_flood_ack_cancels_rebroadcast() {
    let mut n = AcknowledgedOrRepeatFlood::new();
    let h = BasicHeader { dest: Destination::Broadcast, sender: 0, packet_id: 0 };
    assert!(!n.receive_message(1, h, MessageContent::GeneratedMessage(0), 10, Db::from_db(3)));
    assert_eq!(n.rebroadcasts.len(), 1);
    let ack = BasicHeader { dest: Destination::Broadcast, sender: 5, packet_id: 9 };
    let key = GlobalPacketId { node_id: 0, packet_id: 0 };
    n.receive_message(1, ack, MessageContent::NodeMessage(CustomContent::GlobalAck { id: key }), 0, Db::from_db(3));
    assert!(n.acknowledgements.contains(&key));
    assert!(n.rebroadcasts.iter().all(|(p, _)| p.global_id() != key));
    // Acknowledged: heard again, it is ignored.
    assert!(!n.receive_message(1, h, MessageContent::GeneratedMessage(0), 10, Db::from_db(3)));
    assert!(n.rebroadcasts.iter().all(|(p, _)| p.global_id() != key));
}

#[test]
fn repeat_flood_repeats_then_stops() {
    let mut n = AcknowledgedOrRepeatFlood::new();
    let info = MessageInfo { size: 12, targets: vec![2, 3] };
    n.generate_message(1, MessageContent::GeneratedMessage(0), &info);
    for _ in 0..4 {
        assert!(n.run_routing_thread());
    }
    assert!(!n.run_routing_thread());
    assert_eq!(n.radio_interface.tx_queue.len(), 4);
    assert!(n.acknowledgements.contains(&GlobalPacketId { node_id: 1, packet_id: 0 }));
    // Addressed to this node: an acknowledgment is broadcast.
    let h = BasicHeader { dest: Destination::Node(1), sender: 0, packet_id: 3 };
    assert!(n.receive_message(1, h, MessageContent::GeneratedMessage(1), 10, Db::from_db(0)));
    let last = n.radio_interface.tx_queue.last().unwrap();
    assert_eq!(last.message_content, MessageContent::NodeMessage(CustomContent::GlobalAck { id: GlobalPacketId { node_id: 0, packet_id: 3 } }));
}

#[test]
fn threshold_reception_counts() {
    let w = |lat: Option<u64>| WantedMessage { message_id: 0, was_received: lat.is_some(), latency: lat.map(Time::from_micros) };
    let all = vec![vec![w(Some(100)), w(None)], vec![], vec![w(Some(200)), w(Some(50))]];
    assert_eq!(threshold_reception(&all, Time::from_micros(100)), (2, 4));
    assert_eq!(threshold_reception(&all, Time::from_micros(200)), (3, 4));
    assert_eq!(threshold_reception(&vec![], Time::from_micros(200)), (0, 0));
}

#[test]
fn wanted_lists_and_penalised_latency() {
    let messages = vec![
        ScenarioMessage::new(0, vec![1, 2], Time::from_iseconds(1), 10),
        ScenarioMessage::new(1, vec![2], Time::from_iseconds(2), 10),
    ];
    let mut t = frogcore::em::Transmission {
        id: 0,
        transmitter_id: 0,
        start_time: Time::from_iseconds(3),
        end_time: Time::from_iseconds(4),
        sf: 7,
        power: Db::from_db(0),
        carrier_band: CarrierBand::B868,
        bandwidth: Frequency::from_khz(125),
        header: basic(0, 0),
        message_content: MessageContent::GeneratedMessage(0),
    };
    let mut recs = vec![Reception { receiver_id: 1, transmission: t }];
    t.end_time = Time::from_iseconds(9);
    recs.push(Reception { receiver_id: 2, transmission: t });
    let w = wanted_messages(&recs, &messages, 3);
    assert_eq!(w[0].len(), 0);
    assert_eq!(w[1], vec![WantedMessage { message_id: 0, was_received: true, latency: Some(Time::from_iseconds(3)) }]);
    assert_eq!(w[2].len(), 2);
    assert_eq!(w[2][0].latency, Some(Time::from_iseconds(8)));
    assert_eq!(w[2][1], WantedMessage { message_id: 1, was_received: false, latency: None });
    // Node 0 wants nothing: 0. Node 1: 3 s. Node 2: (5 + 5) / 2 with a 5 s cap.
    assert_eq!(latency_score(&w, Time::from_iseconds(5)), Time::from_micros((0 + 3_000_000 + 5_000_000) / 3));
    assert_eq!(latency_score(&w, Time::from_iseconds(120)), Time::from_micros((0 + 3_000_000 + (8_000_000 + 120_000_000) / 2) / 3));
}

#[test]
fn radio_thread_backs_off_then_sends() {
    let mut sim = sim_of(line(2, 100));
    sim.register_thread(0, NodeThread::RadioThread);
    let mut radio = RadioInterface::new();
    let packet = StoredPacket { header: basic(0, 0), message_content: MessageContent::Empty, size: 4, snr: None };
    radio.send(packet);
    sim.start_backoff(0, &radio, 0, 50_000_000);
    let e = sim.next_event().unwrap();
    assert_eq!(e.action, SimAction::MaybeNotify { node_id: 0, on_thread: NodeThread::RadioThread });
    // At most 3 slots of 77.232 ms on an idle channel.
    assert!(e.time.micros < 4 * 77_232);
    assert_eq!(sim.maybe_notify(0, NodeThread::RadioThread), Some(Notification::TransmitDelayCompleted));
    // Channel busy: defer, keep the packet.
    assert_eq!(sim.radio_thread_step(0, &mut radio, true, 0, 50_000_000), RadioAction::Defer);
    assert_eq!(radio.tx_queue.len(), 1);
    assert_eq!(sim.radio_thread_step(0, &mut radio, false, 0, 50_000_000), RadioAction::Transmit(packet));
    assert!(radio.tx_queue.is_empty());
    let mut sends = 0;
    while let Some(e) = sim.next_event() {
        if let SimAction::SendMessage { node_id: 0, header, .. } = e.action {
            assert_eq!(header, basic(0, 0));
            sends += 1;
        }
    }
    assert_eq!(sends, 1);
    assert_eq!(sim.radio_thread_step(0, &mut radio, false, 0, 50_000_000), RadioAction::Idle);
}

/// Runs a whole simulation where every node hears every other at -60 dBm
/// over -120 dBm of noise.
fn run_flat(mut sim: Simulation, mut models: Vec<NodeModel>) -> Simulation {
    let view = |sim: &Simulation| {
        let detected = vec![true; sim.em_field.transmissions.len()];
        let (busy, look_back) = observed_utilisation(&sim.em_field, sim.sim_time, &detected);
        let in_use = detecting_any_at(&sim.em_field, sim.sim_time, &detected);
        ChannelView { busy, look_back, in_use }
    };
    for node in 0..models.len() {
        models[node].initialise(&mut sim, node);
    }
    let mut steps = 0;
    while let Some(e) = sim.next_event() {
        steps += 1;
        assert!(steps < 1_000_000);
        match e.action {
            SimAction::GenerateMessage { node_id, message_id } => {
                let v = view(&sim);
                models[node_id].generate_message(&mut sim, node_id, message_id, v);
            }
            SimAction::SendMessage { node_id, header, message_content } => {
                let _ = sim.try_broadcast(node_id, header, message_content);
            }
            SimAction::RecieveMessage { node_id, transmission_id } => {
                let powers = vec![Db::from_db(-60); sim.em_field.transmissions.len()];
                if let Some((h, c, size, snr)) =
                    sim.receive_message(node_id, transmission_id, Db::from_db(-60), &powers, Db::from_db(-120))
                {
                    let v = view(&sim);
                    models[node_id].receive_message(&mut sim, node_id, h, c, size, snr, v);
                }
            }
            SimAction::MaybeNotify { node_id, on_thread } => {
                if let Some(n) = sim.maybe_notify(node_id, on_thread) {
                    let v = view(&sim);
                    models[node_id].get_notified(&mut sim, node_id, n, v);
                }
            }
        }
    }
    sim
}

fn received_share(sim: &Simulation, messages: &Vec<ScenarioMessage>) -> (u64, u64) {
    let recs = resolve_receptions(&sim.logs, &sim.em_field);
    let w = wanted_messages(&recs, messages, sim.node_settings.len());
    let mut got = 0;
    let mut of = 0;
    for node in w.iter() {
        if !node.is_empty() {
            let (a, b) = reception_rate(node);
            got += a;
            of += b;
        }
    }
    (got, of)
}

#[test]
fn managed_flood_broadcast_reaches_everyone() {
    let sim = sim_of(line(4, 100));
    let mut sim = sim;
    let messages = vec![ScenarioMessage::new(0, vec![1, 2, 3], Time::from_iseconds(1), 20)];
    sim.enqueue_message_generation(messages[0].clone());
    let models = (0..4).map(|_| NodeModel::SimpleManagedFlooding(SimpleManagedFlooding::new())).collect();
    let sim = run_flat(sim, models);
    assert_eq!(received_share(&sim, &messages), (3, 3));
    let recs = resolve_receptions(&sim.logs, &sim.em_field);
    assert!(frogcore::verification::verify_all(&sim.em_field, &recs));
}

#[test]
fn dense_probabilistic_flood_delivers() {
    let n = 20;
    let mut sim = sim_of(line(n, 10));
    let messages: Vec<ScenarioMessage> = (0..10)
        .map(|i| ScenarioMessage::new(i, (0..n as usize).filter(|t| *t != i).collect(), Time::from_iseconds(1 + 60 * i as u64), 20))
        .collect();
    for m in messages.iter() {
        sim.enqueue_message_generation(m.clone());
    }
    let models = (0..n).map(|_| NodeModel::ProbabilisticFlood(ProbabilisticFlood::new())).collect();
    let sim = run_flat(sim, models);
    let (got, of) = received_share(&sim, &messages);
    assert!(got * 100 > of * 95, "{got} of {of}");
}

#[test]
fn meshtastic_unicast_is_acknowledged() {
    let mut sim = sim_of(line(3, 100));
    let messages = vec![ScenarioMessage::new(0, vec![2], Time::from_iseconds(1), 20)];
    sim.enqueue_message_generation(messages[0].clone());
    let models = (0..3).map(|_| NodeModel::Meshtastic(Meshtastic::new())).collect();
    let sim = run_flat(sim, models);
    assert_eq!(received_share(&sim, &messages), (1, 1));
    // The acknowledgment went on air too.
    assert!(sim.em_field.transmissions.iter().any(|t| matches!(
        t.message_content,
        MessageContent::NodeMessage(CustomContent::RoutingMessage { status: RoutingStatus::NotError, about_id: 0 })
    )));
}

#[test]
fn busy_radio_error_is_logged_by_the_model() {
    let mut sim = sim_of(line(2, 100));
    let model = NodeModel::NoRouting(frogcore::routing::NoRouting::new());
    model.handle_error(&mut sim, 0, NodeError::RadioBusyError(basic(0, 0), MessageContent::Empty));
    assert_eq!(sim.logs.len(), 1);
    assert!(matches!(sim.logs[0].content, LogContent::Text(_)));
}
