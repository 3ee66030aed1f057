use frogcore::streams::{sort_by_start, split_logs};
use frogcore::analysis::{
    create_transmission_graphs, emergency_result, reception_counts, ReceptionCounts, reception_rate, resolve_receptions, wanted_message, EmergencyResult, LogContent,
    LogItem, LogLevel, LogSource, Reception, WantedMessage,
};
use frogcore::capture::{
    detected_at, detecting_any_at, observed_utilisation, reception_at, TransmissionResult,
};
use frogcore::em::{EmField, Transmission};
use frogcore::events::{EventQueue, SimAction, SimEvent};
use frogcore::lora::{calculate_air_time, sir_threshold, snr_detect_threshold, snr_read_threshold};
use frogcore::node::{
    basic_header, get_hop_limit_for_response, meshtastic_header, BasicHeader, CustomContent,
    Destination, GlobalPacketId, Header, MessageContent, MessageInfo, NodeError, NodeThread,
    Notification, RoutingStatus,
};
use frogcore::notify::NotifyTable;
use frogcore::radio::{
    retransmission_delay, slot_time, snr_contention_window, tx_delay,
    utilisation_contention_window, weighted_tx_delay, RadioAction, RadioInterface, StoredPacket,
};
use frogcore::routing::{NoRouting, ProbabilisticFlood, SimpleManagedFlooding};
use frogcore::scenario::{MessageMarker, ScenarioMessage, ScenarioNodeSettings};
use frogcore::settings::{CarrierBand, NodeSettings};
use frogcore::units::{Db, Frequency, Time};
use frogcore::verification::{
    no_overlapping_reception, no_overlapping_transmission,
    no_transmission_and_reception_at_same_time, verify_all,
};

fn standard_settings() -> NodeSettings {
    NodeSettings::from_scenario(ScenarioNodeSettings::standard())
}

fn header(sender: usize, packet_id: u32) -> Header {
    Header::Basic(BasicHeader { dest: Destination::Broadcast, sender, packet_id })
}

fn tx(id: u32, transmitter_id: usize, start: u64, end: u64, sf: i32) -> Transmission {
    Transmission {
        id,
        transmitter_id,
        start_time: Time::from_micros(start),
        end_time: Time::from_micros(end),
        sf,
        power: Db::from_db(22),
        carrier_band: CarrierBand::B868,
        bandwidth: Frequency::from_khz(250),
        header: header(transmitter_id, id),
        message_content: MessageContent::GeneratedMessage(0),
    }
}

fn field_of(ts: &[Transmission]) -> EmField {
    let mut f = EmField::new();
    for t in ts {
        f.insert_transmission(*t);
    }
    f
}

fn milli(db: f64) -> Db {
    Db::from_milli_db((db * 1000.0).round() as i64)
}

#[test]
fn snr_thresholds() {
    // Expected values from sf 5 to 12
    let expected = [-2.5, -5.0, -7.5, -10.0, -12.5, -15.0, -17.5, -20.0].map(|n: f64| milli(n));

    for sf in 5..=12 {
        let read_calculated = snr_read_threshold(sf);
        let detect_calculated = snr_detect_threshold(sf);

        assert_eq!(expected[(sf - 5) as usize], read_calculated);
        assert_eq!(expected[(sf - 5) as usize], detect_calculated);
    }
}

#[test]
fn read_threshold_at_sf_eleven() {
    assert_eq!(snr_read_threshold(11).milli_db, -17_500);
}

#[test]
fn sir_matrix_corners() {
    assert_eq!(sir_threshold(7, 7).milli_db, 1000);
    assert_eq!(sir_threshold(12, 7).milli_db, -25_000);
    assert_eq!(sir_threshold(7, 12).milli_db, -9000);
    assert_eq!(sir_threshold(9, 8).milli_db, -13_000);
    for sf in 7..=12 {
        assert_eq!(sir_threshold(sf, sf).milli_db, 1000);
    }
}

#[test]
fn air_time_sf11_250khz_cr5() {
    // 20.25 preamble symbols, 8 + ceil(128 * 5 / 44) = 23 payload symbols,
    // 8.192 ms each.
    let settings = standard_settings();
    let t = calculate_air_time(16, &settings);
    assert_eq!(t.micros, 354_304);
    let float_reference = (20.25 + 23.0) * 2048.0 / 250_000.0;
    assert!(((t.micros as f64) / 1e6 - float_reference).abs() / float_reference < 0.00001);
}

#[test]
fn air_time_with_header_and_low_data_rate() {
    let settings = standard_settings();
    // 32 bytes: 8 + ceil(256 * 5 / 44) = 38 payload symbols.
    assert_eq!(calculate_air_time(32, &settings).micros, 233 * 2048 * 1_000_000 / 1_000_000);
    let mut slow = standard_settings();
    slow.change_sf(12).unwrap();
    slow.change_bandwidth(Frequency::from_khz(125));
    // Symbol time 32.768 ms > 16 ms: ten bits per symbol.
    // 8*16 - 48 + 44 = 124 bits; ceil(124 * 5 / 40) = 16; 8 + 16 = 24 symbols.
    let quarter_symbols: u64 = 81 + 4 * 24;
    assert_eq!(
        calculate_air_time(16, &slow).micros,
        quarter_symbols * 4096 * 1_000_000 / (4 * 125_000)
    );
}

#[test]
fn air_time_short_payload_has_eight_symbols() {
    let mut s = standard_settings();
    s.change_sf(12).unwrap();
    // 8*0 - 48 + 44 < 0: no coded payload symbols.
    assert_eq!(calculate_air_time(0, &s).micros, (81 + 32) * 4096 * 1_000_000 / 1_000_000);
}

#[test]
fn settings_changes_are_checked() {
    let mut s = standard_settings();
    assert!(s.change_sf(6).is_err());
    assert!(s.change_sf(13).is_err());
    assert_eq!(s.sf, 11);
    assert!(s.change_sf(7).is_ok());
    assert_eq!(s.sf, 7);
    assert!(s.change_coding_rate(3).is_err());
    assert!(s.change_coding_rate(8).is_ok());
    assert_eq!(s.coding_rate, 8);
    assert!(s.change_power(Db::from_db(23)).is_err());
    assert!(s.change_power(Db::from_db(10)).is_ok());
    assert_eq!(s.use_power.milli_db, 10_000);
}

#[test]
fn free_space_broadcast_is_read_and_snr_clamped() {
    // 22 dBm, exponent 2, 868 MHz band, 1000 m.
    let wavelength: f64 = 0.34477727;
    let loss = 2.0 * 10.0 * 1000f64.log10() + 20.0 * (4.0 * std::f64::consts::PI).log10()
        - 20.0 * wavelength.log10();
    let power = 22.0 - loss;
    assert!((power - -69.22).abs() < 0.02);
    let noise = 10.0 * (1.380649e-23f64 * 293.15).log10() + 30.0 + 53.9794000867;
    // k·T·B at room temperature over 250 kHz, in dBm.
    assert!((noise - -119.95).abs() < 0.01);
    assert!(power - noise > 20.0);

    let t = tx(0, 0, 0, 354_304, 11);
    let field = field_of(&[t]);
    let powers = vec![milli(power)];
    let r = reception_at(&field, 1, &t, milli(power), &powers, milli(noise));
    assert_eq!(r, TransmissionResult::Success { snr: Db::from_milli_db(20_000) });
}

#[test]
fn weak_signal_is_too_weak() {
    let t = tx(0, 0, 0, 1000, 11);
    let field = field_of(&[t]);
    let powers = vec![Db::from_db(-140)];
    // SNR -19.14 dB is below -17.5 dB.
    let r = reception_at(&field, 1, &t, Db::from_db(-140), &powers, milli(-120.86));
    assert_eq!(r, TransmissionResult::TooWeak);
    // Just at the threshold is read, with the SNR held at its floor.
    let r = reception_at(&field, 1, &t, milli(-138.36), &powers, milli(-120.86));
    assert_eq!(r, TransmissionResult::Success { snr: Db::from_milli_db(-15_000) });
}

#[test]
fn capture_effect_boundary() {
    let x = tx(0, 0, 0, 1000, 9);
    let y = tx(1, 2, 100, 1100, 9);
    let field = field_of(&[x, y]);
    let noise = Db::from_db(-120);
    // Stronger by exactly 1 dB: still lost.
    let powers = vec![Db::from_db(-60), Db::from_db(-61)];
    let r = reception_at(&field, 1, &x, Db::from_db(-60), &powers, noise);
    assert_eq!(r, TransmissionResult::Blocked { blocker_id: 1 });
    // Stronger by a little more: captured.
    let powers = vec![Db::from_db(-60), Db::from_milli_db(-61_001)];
    let r = reception_at(&field, 1, &x, Db::from_db(-60), &powers, noise);
    assert_eq!(r, TransmissionResult::Success { snr: Db::from_db(20) });
    // Same power: the other one is lost too.
    let powers = vec![Db::from_db(-60), Db::from_db(-60)];
    let r = reception_at(&field, 1, &y, Db::from_db(-60), &powers, noise);
    assert_eq!(r, TransmissionResult::Blocked { blocker_id: 0 });
}

#[test]
fn cross_sf_and_other_band_interference() {
    let x = tx(0, 0, 0, 1000, 7);
    let mut y = tx(1, 2, 100, 1100, 8);
    let noise = Db::from_db(-120);
    // sf7 against sf8 needs more than -8 dB.
    let powers = vec![Db::from_db(-60), Db::from_db(-52)];
    let field = field_of(&[x, y]);
    assert_eq!(
        reception_at(&field, 1, &x, Db::from_db(-60), &powers, noise),
        TransmissionResult::Blocked { blocker_id: 1 }
    );
    let powers = vec![Db::from_db(-60), Db::from_milli_db(-52_001)];
    assert!(matches!(
        reception_at(&field, 1, &x, Db::from_db(-60), &powers, noise),
        TransmissionResult::Success { .. }
    ));
    y.carrier_band = CarrierBand::B433;
    let field = field_of(&[x, y]);
    let powers = vec![Db::from_db(-60), Db::from_db(-20)];
    assert!(matches!(
        reception_at(&field, 1, &x, Db::from_db(-60), &powers, noise),
        TransmissionResult::Success { .. }
    ));
}

#[test]
fn own_transmission_blocks_reception() {
    let x = tx(0, 0, 0, 1000, 9);
    let mine = tx(1, 1, 900, 1500, 9);
    let field = field_of(&[x, mine]);
    let powers = vec![Db::from_db(-60), Db::from_db(22)];
    let r = reception_at(&field, 1, &x, Db::from_db(-60), &powers, Db::from_db(-120));
    assert_eq!(r, TransmissionResult::Blocked { blocker_id: 1 });
    // One that ended before the target started does not.
    let early = tx(2, 1, 0, 50, 9);
    let late = tx(3, 0, 100, 1000, 9);
    let field = field_of(&[early, late]);
    let powers = vec![Db::from_db(22), Db::from_db(-60)];
    let r = reception_at(&field, 1, &late, Db::from_db(-60), &powers, Db::from_db(-120));
    assert!(matches!(r, TransmissionResult::Success { .. }));
}

#[test]
fn field_stays_ordered_by_end_time() {
    let f = field_of(&[tx(0, 0, 0, 500, 7), tx(1, 1, 0, 100, 7), tx(2, 2, 0, 300, 7), tx(3, 3, 0, 300, 7)]);
    let ends: Vec<u64> = f.transmissions.iter().map(|t| t.end_time.micros).collect();
    assert_eq!(ends, vec![100, 300, 300, 500]);
    let ids: Vec<u32> = f.transmissions.iter().map(|t| t.id).collect();
    assert_eq!(ids, vec![1, 3, 2, 0]);
    assert_eq!(f.find_transmission(2).unwrap().end_time.micros, 300);
    assert!(f.find_transmission(9).is_none());
    assert!(f.is_transmitting(0, Time::from_micros(500)));
    assert!(!f.is_transmitting(0, Time::from_micros(501)));
    assert!(!f.is_transmitting(1, Time::from_micros(200)));
}

#[test]
fn busy_radio_refuses_second_send() {
    let settings = standard_settings();
    let mut f = EmField::new();
    let h = header(0, 0);
    let c = MessageContent::GeneratedMessage(0);
    let first = f.try_broadcast(Time::from_micros(0), 0, 0, &settings, h, c, 16).unwrap();
    assert_eq!(first.end_time.micros, 477_184);
    assert_eq!(first.power.milli_db, 22_000);
    let again = f.try_broadcast(Time::from_micros(1000), 1, 0, &settings, h, c, 16);
    assert_eq!(again, Err(NodeError::RadioBusyError(h, c)));
    assert_eq!(f.len(), 1);
    // Another node may send meanwhile, and this one once it is done.
    assert!(f.try_broadcast(Time::from_micros(1000), 1, 1, &settings, h, c, 16).is_ok());
    assert!(f.try_broadcast(Time::from_micros(477_185), 2, 0, &settings, h, c, 16).is_ok());
    assert!(no_overlapping_transmission(&f));
}

#[test]
fn event_queue_orders_by_time_then_push() {
    let mut q = EventQueue::new();
    let ev = |t: u64, n: usize| SimEvent {
        time: Time::from_micros(t),
        action: SimAction::GenerateMessage { node_id: n, message_id: 0 },
    };
    q.push(ev(50, 0));
    q.push(ev(10, 1));
    q.push(ev(50, 2));
    q.push(ev(10, 3));
    assert_eq!(q.peek_time(), Some(Time::from_micros(10)));
    let order: Vec<usize> = (0..4)
        .map(|_| match q.pop().unwrap().action {
            SimAction::GenerateMessage { node_id, .. } => node_id,
            _ => unreachable!(),
        })
        .collect();
    assert_eq!(order, vec![1, 3, 0, 2]);
    assert!(q.pop().is_none());
    assert!(q.is_empty());
}

#[test]
fn notifications_override_and_expire() {
    let mut t = NotifyTable::new();
    t.register_thread(NodeThread::RadioThread);
    let now = Time::from_micros(100);
    let at = t.notify_later(now, Time::from_micros(50), Notification::TransmitDelayCompleted, NodeThread::RadioThread, false);
    assert_eq!(at, Some(Time::from_micros(150)));
    // A pending one in the future is kept unless overridden.
    let at = t.notify_later(now, Time::from_micros(10), Notification::Routing, NodeThread::RadioThread, false);
    assert_eq!(at, None);
    let at = t.notify_later(now, Time::from_micros(10), Notification::Routing, NodeThread::RadioThread, true);
    assert_eq!(at, Some(Time::from_micros(110)));
    // The overridden wake-up finds nothing.
    assert_eq!(t.take_due(NodeThread::RadioThread, Time::from_micros(150)), None);
    assert_eq!(t.take_due(NodeThread::RadioThread, Time::from_micros(110)), Some(Notification::Routing));
    assert_eq!(t.take_due(NodeThread::RadioThread, Time::from_micros(110)), None);
    assert_eq!(t.take_due(NodeThread::RoutingThread, Time::from_micros(110)), None);
}

fn packet(sender: usize, id: u32, snr: Option<Db>) -> StoredPacket {
    StoredPacket { header: header(sender, id), message_content: MessageContent::Empty, size: 0, snr }
}

#[test]
fn radio_interface_queue() {
    let mut r = RadioInterface::new();
    assert_eq!(r.on_transmit_delay_completed(false, false), RadioAction::Idle);
    r.send(packet(1, 1, None));
    r.send(packet(2, 2, None));
    r.priority_send(packet(3, 3, None));
    assert_eq!(r.front(), Some(packet(3, 3, None)));
    assert!(r.cancel_sending(GlobalPacketId { node_id: 1, packet_id: 1 }));
    assert!(!r.cancel_sending(GlobalPacketId { node_id: 1, packet_id: 1 }));
    assert_eq!(r.on_transmit_delay_completed(true, false), RadioAction::Defer);
    assert_eq!(r.on_transmit_delay_completed(false, true), RadioAction::Defer);
    assert_eq!(r.on_transmit_delay_completed(false, false), RadioAction::Transmit(packet(3, 3, None)));
    assert_eq!(r.on_transmit_delay_completed(false, false), RadioAction::Transmit(packet(2, 2, None)));
    assert_eq!(r.on_transmit_delay_completed(false, false), RadioAction::Idle);
}

#[test]
fn backoff_windows_and_delays() {
    let bw = Frequency::from_khz(250);
    // 8.5 * 2048 / 250 kHz = 69.632 ms, plus 7.6 ms.
    assert_eq!(slot_time(bw, 11).micros, 69_632 + 7600);
    assert_eq!(snr_contention_window(Db::from_db(-20)), 2);
    assert_eq!(snr_contention_window(Db::from_db(-15)), 2);
    assert_eq!(snr_contention_window(Db::from_db(-8)), 3);
    assert_eq!(snr_contention_window(Db::from_milli_db(-8001)), 2);
    assert_eq!(snr_contention_window(Db::from_db(20)), 7);
    assert_eq!(snr_contention_window(Db::from_db(40)), 7);
    assert_eq!(utilisation_contention_window(0, 50), 2);
    assert_eq!(utilisation_contention_window(20, 50), 4);
    assert_eq!(utilisation_contention_window(50, 50), 7);
    assert_eq!(weighted_tx_delay(Db::from_db(-15), 3, bw, 11).micros, 17 * 77_232);
    assert_eq!(tx_delay(5, bw, 11).micros, 5 * 77_232);
    assert_eq!(
        retransmission_delay(Time::from_micros(354_304), 2, bw, 11).micros,
        2 * 354_304 + 18_000 + 256 * 77_232 + 4_500_000
    );
}

#[test]
fn channel_utilisation_window() {
    // now = 57 s: look back over 57 s - (50 s + 7 s) = 0 .. 57 s.
    let now = Time::from_iseconds(57);
    let f = field_of(&[tx(0, 0, 1_000_000, 3_000_000, 7), tx(1, 1, 2_000_000, 4_000_000, 7), tx(2, 2, 10_000_000, 11_000_000, 7)]);
    let (busy, look_back) = observed_utilisation(&f, now, &vec![true, true, true]);
    assert_eq!(look_back, 57_000_000);
    assert_eq!(busy, 4_000_000);
    let (busy, _) = observed_utilisation(&f, now, &vec![true, false, true]);
    assert_eq!(busy, 3_000_000);
    // At 100 s the window starts at 50 s.
    let (busy, look_back) = observed_utilisation(&f, Time::from_iseconds(100), &vec![true, true, true]);
    assert_eq!((busy, look_back), (0, 50_000_000));
    // A channel busy all the time reads as fully used, never more.
    let full = field_of(&[tx(0, 0, 0, 70_000_000, 7), tx(1, 1, 10_000_000, 69_000_000, 7)]);
    let (busy, look_back) = observed_utilisation(&full, Time::from_iseconds(65), &vec![true, true]);
    assert_eq!(busy, look_back);
    assert!(detecting_any_at(&full, Time::from_iseconds(65), &vec![false, true]));
    assert!(!detecting_any_at(&full, Time::from_iseconds(65), &vec![false, false]));
}

#[test]
fn detection_needs_band_and_threshold() {
    let t = tx(0, 0, 0, 10, 7);
    // Threshold at sf 7: -7.5 dB.
    assert!(detected_at(CarrierBand::B868, &t, Db::from_milli_db(-127_500), Db::from_db(-120)));
    assert!(!detected_at(CarrierBand::B868, &t, Db::from_milli_db(-127_501), Db::from_db(-120)));
    assert!(!detected_at(CarrierBand::B433, &t, Db::from_db(-60), Db::from_db(-120)));
}

#[test]
fn hop_limit_for_response_values() {
    assert_eq!(get_hop_limit_for_response(0, 0), 3);
    assert_eq!(get_hop_limit_for_response(3, 3), 2);
    assert_eq!(get_hop_limit_for_response(3, 2), 3);
    assert_eq!(get_hop_limit_for_response(7, 1), 6);
    assert_eq!(get_hop_limit_for_response(2, 5), 3);
}

#[test]
fn headers_for_user_messages() {
    let one = MessageInfo { size: 10, targets: vec![4] };
    let many = MessageInfo { size: 10, targets: vec![4, 5] };
    assert_eq!(one.std_destination(), Destination::Node(4));
    assert_eq!(many.std_destination(), Destination::Broadcast);
    let b = basic_header(1, 7, &one);
    assert_eq!(b, BasicHeader { dest: Destination::Node(4), sender: 1, packet_id: 7 });
    let m = meshtastic_header(1, 7, &many);
    assert_eq!((m.hop_limit, m.hop_start, m.want_ack, m.dest), (3, 3, true, Destination::Broadcast));
    assert_eq!(Header::Basic(b).size(), 16);
    let c = CustomContent::RoutingMessage { status: RoutingStatus::MaxRetransmit, about_id: 1 };
    assert_eq!(c.size(), 8);
    assert!(Destination::Node(3).is_to_node(3));
    assert!(!Destination::Broadcast.is_to_node(3));
    assert!(Destination::Broadcast.is_broadcast());
}

#[test]
fn managed_flooding_forwards_once_and_cancels() {
    let mut n = SimpleManagedFlooding::new();
    let h = BasicHeader { dest: Destination::Broadcast, sender: 0, packet_id: 0 };
    assert!(n.receive_message(1, h, MessageContent::GeneratedMessage(0), 10, Db::from_db(5)));
    assert_eq!(n.radio_interface.tx_queue.len(), 1);
    // Heard again before sending: the forward is dropped.
    assert!(!n.receive_message(1, h, MessageContent::GeneratedMessage(0), 10, Db::from_db(5)));
    assert_eq!(n.radio_interface.tx_queue.len(), 0);
    // Addressed to this node: not forwarded.
    let to_me = BasicHeader { dest: Destination::Node(1), sender: 0, packet_id: 1 };
    assert!(!n.receive_message(1, to_me, MessageContent::Empty, 0, Db::from_db(5)));
    let info = MessageInfo { size: 12, targets: vec![2, 3] };
    let p = n.generate_message(1, MessageContent::GeneratedMessage(4), &info);
    assert_eq!(p.global_id(), GlobalPacketId { node_id: 1, packet_id: 0 });
    // Its own packet echoed back is not forwarded again.
    let echo = BasicHeader { dest: Destination::Broadcast, sender: 1, packet_id: 0 };
    assert!(!n.receive_message(1, echo, MessageContent::GeneratedMessage(4), 12, Db::from_db(5)));
}

#[test]
fn probabilistic_flooding_draws_after_two_hops() {
    let mut n = ProbabilisticFlood::new();
    let info = MessageInfo { size: 12, targets: vec![2, 3] };
    let mut h = meshtastic_header(0, 0, &info);
    assert!(!n.needs_draw(1, h));
    assert!(n.receive_with_draw(1, h, MessageContent::GeneratedMessage(0), 12, Db::from_db(0), 999));
    match n.radio_interface.tx_queue[0].header {
        Header::Meshtastic(fwd) => assert_eq!(fwd.hop_limit, 2),
        _ => unreachable!(),
    }
    h.packet_id = 1;
    h.hop_limit = 1;
    assert!(n.needs_draw(1, h));
    assert!(!n.receive_with_draw(1, h, MessageContent::GeneratedMessage(0), 12, Db::from_db(0), 650));
    h.packet_id = 2;
    assert!(n.receive_with_draw(1, h, MessageContent::GeneratedMessage(0), 12, Db::from_db(0), 649));
    assert!(!n.receive_with_draw(1, h, MessageContent::GeneratedMessage(0), 12, Db::from_db(0), 0));
}

#[test]
fn no_routing_sends_directly() {
    let mut n = NoRouting::new();
    let info = MessageInfo { size: 12, targets: vec![2] };
    let (h, c) = n.generate_message(5, MessageContent::GeneratedMessage(3), &info);
    assert_eq!(h, BasicHeader { dest: Destination::Node(2), sender: 5, packet_id: 0 });
    assert_eq!(c, MessageContent::GeneratedMessage(3));
    let (h, _) = n.generate_message(5, MessageContent::GeneratedMessage(4), &info);
    assert_eq!(h.packet_id, 1);
}

fn log(time: u64, content: LogContent) -> LogItem {
    LogItem { time: Time::from_micros(time), log_level: LogLevel::Info, source: LogSource::Simulation, content }
}

#[test]
fn analysis_of_receptions() {
    let mut a = tx(0, 0, 1_000_000, 2_000_000, 7);
    a.message_content = MessageContent::GeneratedMessage(0);
    let mut b = tx(1, 1, 3_000_000, 4_000_000, 7);
    b.message_content = MessageContent::GeneratedMessage(0);
    let field = field_of(&[a, b]);
    let logs = vec![
        log(1_000_000, LogContent::TransmissionSent { sender_id: 0, transmission_id: 0 }),
        log(2_000_000, LogContent::TransmissionReceived { receiver_id: 1, transmission_id: 0 }),
        log(3_000_000, LogContent::Text("x".to_string())),
        log(4_000_000, LogContent::TransmissionReceived { receiver_id: 2, transmission_id: 1 }),
        log(4_000_000, LogContent::TransmissionReceived { receiver_id: 1, transmission_id: 1 }),
    ];
    let recs = resolve_receptions(&logs, &field);
    assert_eq!(recs.len(), 3);
    assert_eq!(recs[1], Reception { receiver_id: 2, transmission: b });
    let w = wanted_message(&recs, 1, 0, Time::from_micros(500_000));
    assert_eq!(w, WantedMessage { message_id: 0, was_received: true, latency: Some(Time::from_micros(1_500_000)) });
    let w = wanted_message(&recs, 3, 0, Time::from_micros(500_000));
    assert_eq!(w, WantedMessage { message_id: 0, was_received: false, latency: None });
    assert_eq!(reception_rate(&vec![]), (1, 1));
    let ws = vec![
        WantedMessage { message_id: 0, was_received: true, latency: None },
        WantedMessage { message_id: 1, was_received: false, latency: None },
        WantedMessage { message_id: 2, was_received: true, latency: None },
    ];
    assert_eq!(reception_rate(&ws), (2, 3));
    assert!(verify_all(&field, &recs));
    assert!(no_overlapping_reception(&recs));
    assert!(no_transmission_and_reception_at_same_time(&field, &recs));
}

#[test]
fn overlap_checks_find_violations() {
    let f = field_of(&[tx(0, 0, 0, 100, 7), tx(1, 0, 50, 150, 7)]);
    assert!(!no_overlapping_transmission(&f));
    let recs = vec![
        Reception { receiver_id: 3, transmission: tx(0, 0, 0, 100, 7) },
        Reception { receiver_id: 3, transmission: tx(1, 1, 99, 150, 7) },
    ];
    assert!(!no_overlapping_reception(&recs));
    let f2 = field_of(&[tx(2, 3, 90, 200, 7)]);
    assert!(!no_transmission_and_reception_at_same_time(&f2, &recs));
}

#[test]
fn emergency_outcomes() {
    let plain = ScenarioMessage::new(0, vec![1], Time::from_iseconds(1), 10);
    let urgent = ScenarioMessage::new(0, vec![1], Time::from_iseconds(5), 10).with_marker(MessageMarker::Emergency);
    let urgent_later = ScenarioMessage::new(2, vec![1], Time::from_iseconds(8), 10).with_marker(MessageMarker::Emergency);
    let gateways = vec![false, true, false];
    assert_eq!(emergency_result(&vec![plain.clone()], &vec![], &gateways), EmergencyResult::NotEmergency);
    let messages = vec![plain, urgent, urgent_later];
    assert_eq!(emergency_result(&messages, &vec![], &gateways), EmergencyResult::NotRecieved);
    let mut t = tx(0, 0, 9_000_000, 12_000_000, 7);
    t.message_content = MessageContent::GeneratedMessage(2);
    let mut u = tx(1, 0, 9_000_000, 10_000_000, 7);
    u.message_content = MessageContent::GeneratedMessage(1);
    let recs = vec![
        Reception { receiver_id: 1, transmission: t },
        Reception { receiver_id: 2, transmission: u },
    ];
    assert_eq!(emergency_result(&messages, &recs, &gateways), EmergencyResult::Latency(Time::from_iseconds(7)));
    let recs2 = vec![Reception { receiver_id: 1, transmission: t }, Reception { receiver_id: 1, transmission: u }];
    assert_eq!(emergency_result(&messages, &recs2, &gateways), EmergencyResult::Latency(Time::from_iseconds(5)));
}

#[test]
fn scenario_message_builders() {
    let m = ScenarioMessage::new(1, vec![2, 3], Time::from_imilis(1500), 20);
    assert_eq!(m.num_generations, 1);
    assert_eq!(m.generation_spacing, Time::from_iseconds(1));
    assert!(!m.is_emergency());
    let m = m.with_repeats(4, Time::from_iseconds(30)).with_marker(MessageMarker::Emergency);
    assert_eq!((m.num_generations, m.generation_spacing.micros), (4, 30_000_000));
    assert!(m.is_emergency());
    assert_eq!(m.generate_time.micros, 1_500_000);
    let s = ScenarioNodeSettings::standard().as_gateway();
    assert!(s.is_gateway);
    let n = NodeSettings::from_scenario(s);
    assert_eq!(n.use_power, n.max_power);
    assert_eq!(n.clock_offset.micros, 0);
}

#[test]
fn transmission_graphs_from_logs() {
    let logs = vec![
        log(0, LogContent::TransmissionSent { sender_id: 4, transmission_id: 0 }),
        log(5, LogContent::TransmissionSent { sender_id: 2, transmission_id: 1 }),
        log(9, LogContent::TransmissionReceived { receiver_id: 1, transmission_id: 0 }),
        log(9, LogContent::TransmissionReceived { receiver_id: 3, transmission_id: 0 }),
        log(9, LogContent::TransmissionBlocked { receiver_id: 5, target_transmission_id: 0, blocking_transmission_id: 1 }),
        log(12, LogContent::TransmissionReceived { receiver_id: 4, transmission_id: 1 }),
    ];
    let graphs = create_transmission_graphs(&logs);
    assert_eq!(graphs.len(), 2);
    assert_eq!((graphs[0].0, graphs[0].1.origin, graphs[0].1.targets.clone()), (0, 4, vec![1, 3]));
    assert_eq!((graphs[1].0, graphs[1].1.origin, graphs[1].1.targets.clone()), (1, 2, vec![4]));
}

#[test]
fn reception_counts_split_direct_and_other() {
    let messages = vec![ScenarioMessage::new(0, vec![1], Time::from_iseconds(0), 10)];
    let mut to_target = tx(0, 0, 0, 10, 7);
    to_target.message_content = MessageContent::GeneratedMessage(0);
    let mut ack = tx(1, 1, 20, 30, 7);
    ack.message_content = MessageContent::NodeMessage(CustomContent::GlobalAck { id: GlobalPacketId { node_id: 0, packet_id: 0 } });
    let recs = vec![
        Reception { receiver_id: 1, transmission: to_target },
        Reception { receiver_id: 2, transmission: to_target },
        Reception { receiver_id: 0, transmission: ack },
    ];
    assert_eq!(
        reception_counts(&recs, &messages),
        ReceptionCounts { message_receptions: 2, other_receptions: 1, direct_receptions: 1 }
    );
}

#[test]
fn seeded_draws_repeat_and_stay_in_range() {
    let mut a = frogcore::rng::SimRng::new(42);
    let mut b = frogcore::rng::SimRng::new(42);
    let xs: Vec<u64> = (0..20).map(|_| a.below(1000)).collect();
    let ys: Vec<u64> = (0..20).map(|_| b.below(1000)).collect();
    assert_eq!(xs, ys);
    assert!(xs.iter().all(|x| *x < 1000));
    assert!(xs.iter().any(|x| *x != xs[0]));
    let bw = Frequency::from_khz(250);
    let slot = 77_232;
    let d = frogcore::radio::backoff_delay(&mut a, None, 0, 50, bw, 11);
    assert_eq!(d.micros % slot, 0);
    assert!(d.micros < 4 * slot);
    let d = frogcore::radio::backoff_delay(&mut a, Some(Db::from_db(20)), 0, 50, bw, 11);
    assert_eq!(d.micros % slot, 0);
    assert!(d.micros >= 14 * slot && d.micros < (14 + 128) * slot);
    let r = frogcore::routing::routing_delay(&mut a);
    assert!(r.micros >= 1_000_000 && r.micros < 20_000_000);
    let mut n = ProbabilisticFlood::new();
    let info = MessageInfo { size: 12, targets: vec![2, 3] };
    let h = meshtastic_header(0, 0, &info);
    // Fewer than two hops: always forwarded, whatever the stream.
    assert!(n.receive_message(&mut a, 1, h, MessageContent::GeneratedMessage(0), 12, Db::from_db(0)));
}

#[test]
fn logs_split_by_source_and_time() {
    let node_log = |t: u64, n: usize| LogItem {
        time: Time::from_micros(t),
        log_level: LogLevel::Debug,
        source: LogSource::Node(n),
        content: LogContent::Text("x".to_string()),
    };
    let logs = vec![
        log(30, LogContent::TransmissionReceived { receiver_id: 1, transmission_id: 0 }),
        node_log(20, 1),
        log(10, LogContent::TransmissionSent { sender_id: 0, transmission_id: 0 }),
        node_log(5, 1),
        log(30, LogContent::TransmissionBlocked { receiver_id: 2, target_transmission_id: 0, blocking_transmission_id: 1 }),
        node_log(7, 0),
    ];
    let streams = split_logs(logs, 3);
    let times: Vec<u64> = streams.sim_events.iter().map(|l| l.time.micros).collect();
    assert_eq!(times, vec![10, 30, 30]);
    assert_eq!((streams.sent, streams.received, streams.blocked), (1, 1, 1));
    assert_eq!(streams.node_events.len(), 3);
    assert_eq!(streams.node_events[0].len(), 1);
    let t1: Vec<u64> = streams.node_events[1].iter().map(|l| l.time.micros).collect();
    assert_eq!(t1, vec![5, 20]);
    assert!(streams.node_events[2].is_empty());
    let sorted = sort_by_start(vec![tx(0, 0, 50, 60, 7), tx(1, 1, 10, 90, 7), tx(2, 2, 30, 40, 7)]);
    let ids: Vec<u32> = sorted.iter().map(|t| t.id).collect();
    assert_eq!(ids, vec![1, 2, 0]);
}
