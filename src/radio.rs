use vstd::prelude::*;
use vstd::arithmetic::power2::{lemma2_to64, pow2};

use crate::lora::{valid_sf, SNR_MAX_MDB, SNR_MIN_MDB};
use crate::node::{GlobalPacketId, Header, MessageContent};
use crate::rng::SimRng;
use crate::units::{Db, Frequency, Time};

verus! {

/// Smallest contention window exponent.
pub const CW_MIN: i32 = 2;

/// Largest contention window exponent.
pub const CW_MAX: i32 = 7;

/// Time a node is taken to spend handling a packet before retransmitting it.
pub const PROCESSING_TIME_MICROS: u64 = 4_500_000;

/// One backoff slot: `8.5 · 2^sf / bandwidth` plus 7.6 ms of turnaround, in
/// whole microseconds (the first term rounded down).
pub open spec fn slot_time_spec(bandwidth_hz: int, sf: int) -> int {
    8_500_000 * (pow2(sf as nat) as int) / bandwidth_hz + 7600
}

pub fn slot_time(bandwidth: Frequency, sf: i32) -> (r: Time)
    requires
        bandwidth@ >= 1,
        valid_sf(sf as int),
    ensures
        r@ == slot_time_spec(bandwidth@, sf as int),
{
    proof {
        lemma2_to64();
    }
    let p: u64 = if sf == 7 {
        128
    } else if sf == 8 {
        256
    } else if sf == 9 {
        512
    } else if sf == 10 {
        1024
    } else if sf == 11 {
        2048
    } else {
        4096
    };
    assert(p == pow2(sf as nat));
    let first = 8_500_000 * p / bandwidth.hertz;
    assert(first <= 8_500_000 * p) by (nonlinear_arith)
        requires
            first as int == (8_500_000 * p) as int / (bandwidth.hertz as int),
            bandwidth.hertz >= 1,
            p <= 4096,
    ;
    Time { micros: first + 7600 }
}

/// Contention window exponent for forwarding a packet heard at `snr`: the SNR
/// placed on `0..=1` between the weakest and strongest a radio reports, times
/// the window's span, rounded down, above the smallest window. Weak packets
/// get short windows so that the most distant receivers forward first.
pub open spec fn snr_window_spec(snr: int) -> int {
    let steps = if snr <= SNR_MIN_MDB {
        0
    } else if (snr - SNR_MIN_MDB) / 7000 > 5 {
        5
    } else {
        (snr - SNR_MIN_MDB) / 7000
    };
    CW_MIN + steps
}

pub fn snr_contention_window(snr: Db) -> (r: i32)
    requires
        snr.in_range(),
    ensures
        r == snr_window_spec(snr@),
        CW_MIN <= r <= CW_MAX,
{
    if snr.milli_db <= SNR_MIN_MDB {
        return CW_MIN;
    }
    let steps = (snr.milli_db - SNR_MIN_MDB) / 7000;
    if steps > 5 {
        CW_MIN + 5
    } else {
        CW_MIN + steps as i32
    }
}

/// Contention window exponent on a channel busy for `busy` of the last
/// `look_back`: the share of busy time times the window's span, rounded down,
/// above the smallest window.
pub open spec fn utilisation_window_spec(busy: int, look_back: int) -> int {
    CW_MIN + (5 * busy) / look_back
}

pub fn utilisation_contention_window(busy: u64, look_back: u64) -> (r: i32)
    requires
        busy <= look_back,
        0 < look_back <= u64::MAX / 5,
    ensures
        r == utilisation_window_spec(busy as int, look_back as int),
        CW_MIN <= r <= CW_MAX,
{
    let steps = (5 * busy) / look_back;
    assert(steps <= 5) by (nonlinear_arith)
        requires
            steps as int == (5 * busy) as int / (look_back as int),
            busy <= look_back,
            0 < look_back,
    ;
    CW_MIN + steps as i32
}

/// Backoff before forwarding a packet heard at `snr`: `2 · CW_MAX + draw`
/// slots, where `draw` is a whole number drawn uniformly below `2^cw` for the
/// window `cw` that `snr_contention_window` gives.
pub fn weighted_tx_delay(snr: Db, draw: u64, bandwidth: Frequency, sf: i32) -> (r: Time)
    requires
        snr.in_range(),
        draw < pow2(snr_window_spec(snr@) as nat),
        bandwidth@ >= 1,
        valid_sf(sf as int),
    ensures
        r@ == (2 * CW_MAX + draw) * slot_time_spec(bandwidth@, sf as int),
{
    let cw = snr_contention_window(snr);
    proof {
        lemma2_to64();
    }
    let slot = slot_time(bandwidth, sf);
    assert(slot.micros <= 8_500_000 * 4096 + 7600);
    assert(draw < 128);
    let m: u64 = 2 * (CW_MAX as u64) + draw;
    assert(m * slot.micros <= 142 * (8_500_000 * 4096 + 7600)) by (nonlinear_arith)
        requires
            m <= 142,
            slot.micros <= 8_500_000 * 4096 + 7600,
    ;
    Time { micros: m * slot.micros }
}

/// Backoff before sending a packet of the node's own: `draw` slots, where
/// `draw` is a whole number drawn uniformly below `2^cw` for the window that
/// the node's observed channel utilisation gives.
pub fn tx_delay(draw: u64, bandwidth: Frequency, sf: i32) -> (r: Time)
    requires
        draw < 128,
        bandwidth@ >= 1,
        valid_sf(sf as int),
    ensures
        r@ == draw * slot_time_spec(bandwidth@, sf as int),
{
    proof {
        lemma2_to64();
    }
    let slot = slot_time(bandwidth, sf);
    assert(draw * slot.micros <= 128 * (8_500_000 * 4096 + 7600)) by (nonlinear_arith)
        requires
            draw < 128,
            slot.micros <= 8_500_000 * 4096 + 7600,
    ;
    Time { micros: draw * slot.micros }
}

/// Wait before retransmitting an unacknowledged packet of air time `airtime`:
/// twice the air time, `2^cw + 2 · CW_MAX` milliseconds, `2^(CW_MAX + CW_MIN / 2)`
/// slots and the processing time.
pub open spec fn retransmission_delay_spec(airtime: int, cw: int, bandwidth_hz: int, sf: int) -> int {
    2 * airtime + (pow2(cw as nat) as int + 2 * CW_MAX) * 1000 + (pow2(8) as int) * slot_time_spec(bandwidth_hz, sf)
        + PROCESSING_TIME_MICROS
}

pub fn retransmission_delay(airtime: Time, cw: i32, bandwidth: Frequency, sf: i32) -> (r: Time)
    requires
        CW_MIN <= cw <= CW_MAX,
        airtime@ <= u64::MAX / 4,
        bandwidth@ >= 1,
        valid_sf(sf as int),
    ensures
        r@ == retransmission_delay_spec(airtime@, cw as int, bandwidth@, sf as int),
{
    proof {
        lemma2_to64();
    }
    let w: u64 = if cw == 2 {
        4
    } else if cw == 3 {
        8
    } else if cw == 4 {
        16
    } else if cw == 5 {
        32
    } else if cw == 6 {
        64
    } else {
        128
    };
    assert(w == pow2(cw as nat));
    let slot = slot_time(bandwidth, sf);
    assert(slot.micros <= 8_500_000 * 4096 + 7600);
    Time {
        micros: 2 * airtime.micros + (w + 2 * (CW_MAX as u64)) * 1000 + 256 * slot.micros
            + PROCESSING_TIME_MICROS,
    }
}

/// `2^cw` for a contention window exponent.
fn window_size(cw: i32) -> (r: u64)
    requires
        CW_MIN <= cw <= CW_MAX,
    ensures
        r == pow2(cw as nat),
        4 <= r <= 128,
{
    proof {
        lemma2_to64();
    }
    if cw == 2 {
        4
    } else if cw == 3 {
        8
    } else if cw == 4 {
        16
    } else if cw == 5 {
        32
    } else if cw == 6 {
        64
    } else {
        128
    }
}

/// The backoff before the radio sends the packet at the front of its queue: a
/// packet being forwarded, heard at `snr`, waits `weighted_tx_delay` slots; a
/// packet of the node's own waits `tx_delay` slots, with the window that the
/// node's channel utilisation `busy / look_back` gives. The draw is taken from
/// `rng`.
pub fn backoff_delay(
    rng: &mut SimRng,
    snr: Option<Db>,
    busy: u64,
    look_back: u64,
    bandwidth: Frequency,
    sf: i32,
) -> (r: Time)
    requires
        snr matches Some(x) ==> x.in_range(),
        busy <= look_back,
        0 < look_back <= u64::MAX / 5,
        bandwidth@ >= 1,
        valid_sf(sf as int),
    ensures
        backoff_ok(r@, snr, busy as int, look_back as int, bandwidth@, sf as int),
{
    let ghost slot = slot_time_spec(bandwidth@, sf as int);
    match snr {
        Some(x) => {
            let cw = snr_contention_window(x);
            let draw = rng.below(window_size(cw));
            let r = weighted_tx_delay(x, draw, bandwidth, sf);
            proof {
                lemma_whole_slots(r@, slot, 2 * CW_MAX + draw, 2 * CW_MAX as int, 2 * CW_MAX + pow2(cw as nat));
            }
            r
        },
        None => {
            let cw = utilisation_contention_window(busy, look_back);
            let draw = rng.below(window_size(cw));
            let r = tx_delay(draw, bandwidth, sf);
            proof {
                lemma_whole_slots(r@, slot, draw as int, 0, pow2(cw as nat) as int);
            }
            r
        },
    }
}

/// `t` is a backoff that `backoff_delay` may give: for a packet heard at
/// `snr`, `2 · CW_MAX` slots plus fewer than `2^cw` more for the SNR's window;
/// for one of the node's own, fewer than `2^cw` slots for the utilisation's window.
pub open spec fn backoff_ok(t: int, snr: Option<Db>, busy: int, look_back: int, bandwidth_hz: int, sf: int) -> bool {
    match snr {
        Some(x) => whole_slots(
            t,
            slot_time_spec(bandwidth_hz, sf),
            2 * CW_MAX as int,
            2 * CW_MAX + pow2(snr_window_spec(x@) as nat),
        ),
        None => whole_slots(
            t,
            slot_time_spec(bandwidth_hz, sf),
            0,
            pow2(utilisation_window_spec(busy, look_back) as nat) as int,
        ),
    }
}

/// `t` is a whole number of slots of length `slot`, at least `lo` and fewer than `hi`.
pub open spec fn whole_slots(t: int, slot: int, lo: int, hi: int) -> bool {
    &&& t % slot == 0
    &&& lo * slot <= t < hi * slot
}

proof fn lemma_whole_slots(t: int, slot: int, m: int, lo: int, hi: int)
    requires
        slot > 0,
        t == m * slot,
        lo <= m < hi,
    ensures
        whole_slots(t, slot, lo, hi),
{
    vstd::arithmetic::div_mod::lemma_mod_multiples_basic(m, slot);
    assert(lo * slot <= m * slot) by (nonlinear_arith)
        requires
            lo <= m,
            slot > 0,
    ;
    assert(m * slot < hi * slot) by (nonlinear_arith)
        requires
            m < hi,
            slot > 0,
    ;
}

/// A packet waiting in a node: what goes on air, its size, and the SNR it was
/// heard at where it is being forwarded.
#[derive(Clone, Copy, Debug, PartialEq, Eq, Structural)]
pub struct StoredPacket {
    pub header: Header,
    pub message_content: MessageContent,
    /// Size in bytes of the body.
    pub size: i32,
    pub snr: Option<Db>,
}

impl StoredPacket {
    pub open spec fn global_id_spec(self) -> GlobalPacketId {
        GlobalPacketId { node_id: self.header.sender_of(), packet_id: self.header.packet_id_of() }
    }

    pub fn global_id(&self) -> (r: GlobalPacketId)
        ensures
            r == self.global_id_spec(),
    {
        self.header.global_id()
    }
}

/// What the radio thread does when its backoff ends.
#[derive(Clone, Copy, Debug, PartialEq, Eq, Structural)]
pub enum RadioAction {
    /// Nothing is queued.
    Idle,
    /// The node is sending or hears the channel in use: wait another backoff.
    Defer,
    /// Send this packet now, then wait another backoff before the next.
    Transmit(StoredPacket),
}

/// Channel access shared by the routing models: a queue of packets sent one at
/// a time, each after a random backoff, only while the channel is free.
pub struct RadioInterface {
    pub tx_queue: Vec<StoredPacket>,
}

impl RadioInterface {
    pub open spec fn view(&self) -> Seq<StoredPacket> {
        self.tx_queue@
    }

    pub fn new() -> (r: RadioInterface)
        ensures
            r@.len() == 0,
    {
        RadioInterface { tx_queue: Vec::new() }
    }

    /// Queues `packet` last; the caller then starts a backoff.
    pub fn send(&mut self, packet: StoredPacket)
        ensures
            final(self)@ == old(self)@.push(packet),
    {
        self.tx_queue.push(packet);
    }

    /// Queues `packet` first; the caller then starts a backoff.
    pub fn priority_send(&mut self, packet: StoredPacket)
        ensures
            final(self)@ == seq![packet] + old(self)@,
    {
        self.tx_queue.insert(0, packet);
        assert(self@ =~= seq![packet] + old(self)@);
    }

    /// The packet sent next.
    pub fn front(&self) -> (r: Option<StoredPacket>)
        ensures
            self@.len() == 0 ==> r is None,
            self@.len() > 0 ==> r == Some(self@[0]),
    {
        if self.tx_queue.len() == 0 {
            None
        } else {
            Some(self.tx_queue[0])
        }
    }

    /// Removes the first queued packet with identity `key`; whether there was one.
    pub fn cancel_sending(&mut self, key: GlobalPacketId) -> (r: bool)
        ensures
            r == (exists|i: int| 0 <= i < old(self)@.len() && old(self)@[i].global_id_spec() == key),
            !r ==> final(self)@ == old(self)@,
            r ==> exists|i: int|
                0 <= i < old(self)@.len() && old(self)@[i].global_id_spec() == key && (forall|j: int|
                    0 <= j < i ==> old(self)@[j].global_id_spec() != key) && final(self)@ == old(self)@.remove(i),
    {
        let mut i: usize = 0;
        while i < self.tx_queue.len()
            invariant
                i <= self@.len(),
                *self == *old(self),
                forall|j: int| 0 <= j < i ==> self@[j].global_id_spec() != key,
            decreases self@.len() - i,
        {
            let id = self.tx_queue[i].global_id();
            if id.node_id == key.node_id && id.packet_id == key.packet_id {
                self.tx_queue.remove(i);
                return true;
            }
            i += 1;
        }
        false
    }

    /// The radio thread's step when a backoff ends: with nothing queued, idle;
    /// while the node transmits or hears the channel in use, defer; otherwise
    /// take the first packet off the queue to be sent.
    pub fn on_transmit_delay_completed(&mut self, is_transmitting: bool, channel_in_use: bool) -> (r:
        RadioAction)
        ensures
            old(self)@.len() == 0 ==> r == RadioAction::Idle && final(self)@ == old(self)@,
            old(self)@.len() > 0 && (is_transmitting || channel_in_use) ==> r == RadioAction::Defer
                && final(self)@ == old(self)@,
            old(self)@.len() > 0 && !is_transmitting && !channel_in_use ==> r
                == RadioAction::Transmit(old(self)@[0]) && final(self)@ == old(self)@.drop_first(),
    {
        if self.tx_queue.len() == 0 {
            return RadioAction::Idle;
        }
        if is_transmitting || channel_in_use {
            return RadioAction::Defer;
        }
        let packet = self.tx_queue.remove(0);
        assert(self@ =~= old(self)@.drop_first());
        RadioAction::Transmit(packet)
    }
}

} // verus!
