use vstd::prelude::*;

use crate::lora::{air_time_micros, calculate_air_time, lemma_air_time_bounds};
use crate::node::{
    get_hop_limit_for_response, CustomContent, Destination, GlobalPacketId, Header, MeshtasticHeader,
    MessageContent, MessageInfo, RoutingStatus, std_destination_spec, DEFAULT_HOP_LIMIT,
};
use crate::radio::{retransmission_delay, RadioInterface, StoredPacket, CW_MAX, CW_MIN};
use crate::settings::NodeSettings;
use crate::simulation::{settings_ok, MAX_MESSAGE_SIZE, SIM_END_MICROS};
use crate::units::{Db, Time};

verus! {

/// Times a packet wanting an acknowledgment is sent again.
pub const NUM_RETRANSMISSIONS: i32 = 3;

/// A routing delay this long or longer means nothing is pending: 48 hours.
pub const MAX_ROUTING_DELAY_MICROS: u64 = 172_800_000_000;

/// A packet held by the Meshtastic model.
#[derive(Clone, Copy, Debug, PartialEq, Eq, Structural)]
pub struct MeshPacket {
    pub header: MeshtasticHeader,
    pub message_content: MessageContent,
    /// Size in bytes of the body.
    pub size: i32,
    pub snr: Option<Db>,
}

impl MeshPacket {
    pub open spec fn key(self) -> GlobalPacketId {
        GlobalPacketId { node_id: self.header.sender, packet_id: self.header.packet_id }
    }

    /// A body size the radio accepts, and hop counts in `0..=1000`.
    pub open spec fn size_ok(self) -> bool {
        &&& 0 <= self.size <= MAX_MESSAGE_SIZE
        &&& 0 <= self.header.hop_limit <= 1000
        &&& 0 <= self.header.hop_start <= 1000
    }

    pub open spec fn stored_spec(self) -> StoredPacket {
        StoredPacket {
            header: Header::Meshtastic(self.header),
            message_content: self.message_content,
            size: self.size,
            snr: self.snr,
        }
    }

    /// The packet as the radio queue holds it.
    pub fn stored(&self) -> (r: StoredPacket)
        ensures
            r == self.stored_spec(),
    {
        StoredPacket {
            header: Header::Meshtastic(self.header),
            message_content: self.message_content,
            size: self.size,
            snr: self.snr,
        }
    }
}

/// A packet of this node's awaiting acknowledgment.
#[derive(Clone, Copy, Debug, PartialEq, Eq, Structural)]
pub struct PendingPacket {
    pub packet: MeshPacket,
    pub next_tx: Time,
    pub num_retransmissions: i32,
}

/// What one node knows of its surroundings while its model runs.
#[derive(Clone, Copy, Debug)]
pub struct MeshContext {
    pub node_id: usize,
    /// The node's clock.
    pub now: Time,
    pub settings: NodeSettings,
    /// Contention window exponent for the channel utilisation the node observes.
    pub cw: i32,
}

impl MeshContext {
    pub open spec fn wf(self) -> bool {
        &&& settings_ok(self.settings)
        &&& CW_MIN <= self.cw <= CW_MAX
        &&& self.now@ < SIM_END_MICROS
    }
}

/// What the caller owes the kernel after the model ran.
#[derive(Clone, Copy, Debug, PartialEq, Eq, Structural)]
pub struct MeshEffects {
    /// Wake the routing thread shortly (1 ms, overriding).
    pub notify_routing: bool,
    /// A packet was queued on the radio: start a backoff.
    pub radio_send: bool,
}

/// The time `d` after `t`, or the last representable time.
pub open spec fn add_sat(t: int, d: int) -> int {
    if t + d <= u64::MAX {
        t + d
    } else {
        u64::MAX as int
    }
}

fn time_add(t: Time, d: Time) -> (r: Time)
    ensures
        r@ == add_sat(t@, d@),
{
    match t.checked_add(d) {
        Some(x) => x,
        None => Time { micros: u64::MAX },
    }
}

/// The Meshtastic firmware's flooding with reliable delivery: received packets
/// wait for the routing thread; this node's packets that want an
/// acknowledgment are sent again until one comes or the tries run out.
pub struct Meshtastic {
    pub radio_interface: RadioInterface,
    pub from_radio_queue: Vec<MeshPacket>,
    pub pending: Vec<(GlobalPacketId, PendingPacket)>,
    pub seen_recently: Vec<GlobalPacketId>,
    pub next_packet_id: u32,
}

pub open spec fn packets_ok(q: Seq<MeshPacket>) -> bool {
    forall|i: int| 0 <= i < q.len() ==> (#[trigger] q[i]).size_ok()
}

pub open spec fn pending_ok(p: Seq<(GlobalPacketId, PendingPacket)>) -> bool {
    forall|i: int|
        0 <= i < p.len() ==> (#[trigger] p[i]).1.packet.size_ok() && 0 <= p[i].1.num_retransmissions
            < NUM_RETRANSMISSIONS
}

/// The header that `base_send` puts on air: a broadcast wants no
/// acknowledgment, and a packet of this node's starts with its present hop limit.
pub open spec fn sent_header(h: MeshtasticHeader, node_id: usize) -> MeshtasticHeader {
    let h1 = if h.dest == Destination::Broadcast { MeshtasticHeader { want_ack: false, ..h } } else { h };
    if h1.sender == node_id { MeshtasticHeader { hop_start: h1.hop_limit, ..h1 } } else { h1 }
}

/// The air time of a body of `size` bytes with the node's settings.
pub open spec fn air_of(ctx: MeshContext, size: int) -> Time {
    Time {
        micros: air_time_micros(size, ctx.settings.sf as int, ctx.settings.coding_rate as int, ctx.settings.bandwidth@) as u64,
    }
}

/// Every entry of `p` after an overheard packet of air time `airtime`.
pub open spec fn bumped_all(p: Seq<(GlobalPacketId, PendingPacket)>, airtime: Time, except: Option<u32>) -> Seq<(GlobalPacketId, PendingPacket)> {
    Seq::new(p.len(), |i: int| bumped(p[i], airtime, except))
}

/// The routing status `status` about `about_id` that this node sends to
/// `dest` as packet `id`, `hop_limit` hops.
pub open spec fn ack_packet(ctx: MeshContext, status: RoutingStatus, dest: Destination, about_id: u32, hop_limit: i32, id: u32) -> MeshPacket {
    MeshPacket {
        header: MeshtasticHeader { dest, sender: ctx.node_id, packet_id: id, hop_limit, hop_start: hop_limit, want_ack: false },
        message_content: MessageContent::NodeMessage(CustomContent::RoutingMessage { status, about_id }),
        size: 0,
        snr: None,
    }
}

/// Some entry of `p` has identity `k`.
pub open spec fn pending_has(p: Seq<(GlobalPacketId, PendingPacket)>, k: GlobalPacketId) -> bool {
    exists|i: int| 0 <= i < p.len() && p[i].0 == k
}

/// The entries of `p` of other identities than `k`, in order.
pub open spec fn without_key(p: Seq<(GlobalPacketId, PendingPacket)>, k: GlobalPacketId) -> Seq<(GlobalPacketId, PendingPacket)>
    decreases p.len(),
{
    if p.len() == 0 {
        Seq::empty()
    } else if p.last().0 == k {
        without_key(p.drop_last(), k)
    } else {
        without_key(p.drop_last(), k).push(p.last())
    }
}

proof fn lemma_without_key(p: Seq<(GlobalPacketId, PendingPacket)>, k: GlobalPacketId)
    ensures
        !pending_has(without_key(p, k), k),
        !pending_has(p, k) ==> without_key(p, k) == p,
        without_key(p, k).len() <= p.len(),
    decreases p.len(),
{
    if p.len() > 0 {
        lemma_without_key(p.drop_last(), k);
        let w = without_key(p.drop_last(), k);
        if p.last().0 != k {
            assert forall|i: int| 0 <= i < w.push(p.last()).len() implies w.push(p.last())[i].0 != k by {
                if i < w.len() {
                    assert(!(w[i].0 == k));
                }
            }
        }
        if !pending_has(p, k) {
            assert(!pending_has(p.drop_last(), k)) by {
                if pending_has(p.drop_last(), k) {
                    let i = choose|i: int| 0 <= i < p.drop_last().len() && p.drop_last()[i].0 == k;
                    assert(p[i].0 == k);
                }
            }
            assert(p[p.len() - 1].0 != k);
            assert(p.drop_last().push(p.last()) =~= p);
        }
    }
}

/// Every identity in `a` is in `b`.
pub open spec fn grows(a: Seq<GlobalPacketId>, b: Seq<GlobalPacketId>) -> bool {
    forall|g: GlobalPacketId| a.contains(g) ==> b.contains(g)
}

/// A pending entry after an overheard packet of air time `airtime`: its next
/// try comes that much later, unless its packet id is `except`.
pub open spec fn bumped(e: (GlobalPacketId, PendingPacket), airtime: Time, except: Option<u32>) -> (
    GlobalPacketId,
    PendingPacket,
) {
    let (k, p) = e;
    if except matches Some(x) && k.packet_id == x {
        e
    } else {
        (k, PendingPacket { next_tx: Time { micros: add_sat(p.next_tx@, airtime@) as u64 }, ..p })
    }
}

impl Meshtastic {
    pub open spec fn wf(&self) -> bool {
        packets_ok(self.from_radio_queue@) && pending_ok(self.pending@)
    }

    pub fn new() -> (r: Meshtastic)
        ensures
            r.wf(),
            r.radio_interface@.len() == 0,
            r.from_radio_queue@.len() == 0,
            r.pending@.len() == 0,
            r.seen_recently@.len() == 0,
            r.next_packet_id == 0,
    {
        Meshtastic {
            radio_interface: RadioInterface::new(),
            from_radio_queue: Vec::new(),
            pending: Vec::new(),
            seen_recently: Vec::new(),
            next_packet_id: 0,
        }
    }

    pub fn identity_str(&self) -> (r: &'static str) {
        "Meshtastic 1.2"
    }

    fn next_id(&mut self) -> (r: u32)
        requires
            old(self).next_packet_id < u32::MAX,
        ensures
            r == old(self).next_packet_id,
            final(self).next_packet_id == old(self).next_packet_id + 1,
            final(self).radio_interface@ == old(self).radio_interface@,
            final(self).from_radio_queue@ == old(self).from_radio_queue@,
            final(self).pending@ == old(self).pending@,
            final(self).seen_recently@ == old(self).seen_recently@,
    {
        let r = self.next_packet_id;
        self.next_packet_id = r + 1;
        r
    }

    /// Whether `key` was seen before; it is remembered from now on.
    pub fn was_seen_recently(&mut self, key: GlobalPacketId) -> (r: bool)
        ensures
            r == old(self).seen_recently@.contains(key),
            r ==> final(self).seen_recently@ == old(self).seen_recently@,
            !r ==> final(self).seen_recently@ == old(self).seen_recently@.push(key),
            final(self).radio_interface@ == old(self).radio_interface@,
            final(self).from_radio_queue@ == old(self).from_radio_queue@,
            final(self).pending@ == old(self).pending@,
            final(self).next_packet_id == old(self).next_packet_id,
    {
        let seen = crate::routing::contains_id(&self.seen_recently, key);
        if !seen {
            self.seen_recently.push(key);
        }
        seen
    }

    /// Position of the first pending entry for `key`.
    fn find_pending(&self, key: GlobalPacketId) -> (r: Option<usize>)
        ensures
            r is None ==> forall|i: int| 0 <= i < self.pending@.len() ==> self.pending@[i].0 != key,
            r matches Some(i) ==> i < self.pending@.len() && self.pending@[i as int].0 == key,
    {
        let mut i: usize = 0;
        while i < self.pending.len()
            invariant
                i <= self.pending@.len(),
                forall|j: int| 0 <= j < i ==> self.pending@[j].0 != key,
            decreases self.pending@.len() - i,
        {
            let k = self.pending[i].0;
            if k.node_id == key.node_id && k.packet_id == key.packet_id {
                return Some(i);
            }
            i += 1;
        }
        None
    }

    /// Stops sending `key` again: drops its pending entry, and its queued send
    /// where it has been sent once already. Whether there was one.
    pub fn stop_retransmission(&mut self, key: GlobalPacketId) -> (r: bool)
        requires
            old(self).wf(),
        ensures
            final(self).wf(),
            r == pending_has(old(self).pending@, key),
            final(self).pending@ == without_key(old(self).pending@, key),
            !pending_has(final(self).pending@, key),
            !r ==> final(self).pending@ == old(self).pending@ && final(self).radio_interface@ == old(self).radio_interface@,
            final(self).from_radio_queue@ == old(self).from_radio_queue@,
            final(self).seen_recently@ == old(self).seen_recently@,
            final(self).next_packet_id == old(self).next_packet_id,
    {
        let found = self.find_pending(key);
        match found {
            Some(i) => {
                if self.pending[i].1.num_retransmissions < NUM_RETRANSMISSIONS - 1 {
                    self.radio_interface.cancel_sending(key);
                }
            },
            None => {},
        }
        let mut kept: Vec<(GlobalPacketId, PendingPacket)> = Vec::new();
        let mut j: usize = 0;
        while j < self.pending.len()
            invariant
                j <= self.pending@.len(),
                self.pending@ == old(self).pending@,
                self.wf(),
                kept@ == without_key(self.pending@.take(j as int), key),
                pending_ok(kept@),
            decreases self.pending@.len() - j,
        {
            let e = self.pending[j];
            assert(self.pending@.take(j as int + 1).drop_last() =~= self.pending@.take(j as int));
            assert(self.pending@.take(j as int + 1).last() == e);
            if !(e.0.node_id == key.node_id && e.0.packet_id == key.packet_id) {
                let ghost k0 = kept@;
                kept.push(e);
                assert forall|x: int| 0 <= x < kept@.len() implies (#[trigger] kept@[x]).1.packet.size_ok() && 0 <= kept@[x].1.num_retransmissions < NUM_RETRANSMISSIONS by {
                    if x < k0.len() {
                        assert(kept@[x] == k0[x]);
                    }
                }
            }
            j += 1;
        }
        assert(self.pending@.take(self.pending@.len() as int) =~= self.pending@);
        proof {
            lemma_without_key(old(self).pending@, key);
        }
        self.pending = kept;
        found.is_some()
    }

    /// Moves every pending entry's next try `airtime` later, except entries
    /// whose packet id is `except` (where given).
    pub fn bump_pending(&mut self, airtime: Time, except: Option<u32>)
        requires
            old(self).wf(),
        ensures
            final(self).wf(),
            final(self).pending@.len() == old(self).pending@.len(),
            forall|i: int|
                0 <= i < old(self).pending@.len() ==> #[trigger] final(self).pending@[i] == bumped(
                    old(self).pending@[i],
                    airtime,
                    except,
                ),
            final(self).pending@ == bumped_all(old(self).pending@, airtime, except),
            final(self).radio_interface@ == old(self).radio_interface@,
            final(self).from_radio_queue@ == old(self).from_radio_queue@,
            final(self).seen_recently@ == old(self).seen_recently@,
            final(self).next_packet_id == old(self).next_packet_id,
    {
        let mut i: usize = 0;
        while i < self.pending.len()
            invariant
                i <= self.pending@.len(),
                self.pending@.len() == old(self).pending@.len(),
                self.wf(),
                forall|j: int|
                    i <= j < self.pending@.len() ==> self.pending@[j] == old(self).pending@[j],
                forall|j: int|
                    0 <= j < i ==> #[trigger] self.pending@[j] == bumped(old(self).pending@[j], airtime, except),
                self.radio_interface@ == old(self).radio_interface@,
                self.from_radio_queue@ == old(self).from_radio_queue@,
                self.seen_recently@ == old(self).seen_recently@,
                self.next_packet_id == old(self).next_packet_id,
            decreases self.pending@.len() - i,
        {
            let (k, p) = self.pending[i];
            let skip = match except {
                Some(x) => k.packet_id == x,
                None => false,
            };
            if !skip {
                let np = PendingPacket { next_tx: time_add(p.next_tx, airtime), ..p };
                let ghost p0 = self.pending@;
                self.pending.set(i, (k, np));
                assert forall|j: int| 0 <= j < self.pending@.len() implies (#[trigger] self.pending@[j]).1.packet.size_ok() && 0 <= self.pending@[j].1.num_retransmissions < NUM_RETRANSMISSIONS by {
                    if j != i {
                        assert(self.pending@[j] == p0[j]);
                    }
                }
            }
            i += 1;
        }
    }

    /// Hands `packet` to the radio with the header `sent_header` gives.
    pub fn base_send(&mut self, ctx: &MeshContext, packet: MeshPacket) -> (r: StoredPacket)
        requires
            old(self).wf(),
            packet.header.dest != Destination::Node(ctx.node_id),
        ensures
            final(self).wf(),
            r == (MeshPacket { header: sent_header(packet.header, ctx.node_id), ..packet }).stored_spec(),
            final(self).radio_interface@ == old(self).radio_interface@.push(r),
            final(self).from_radio_queue@ == old(self).from_radio_queue@,
            final(self).pending@ == old(self).pending@,
            final(self).seen_recently@ == old(self).seen_recently@,
            final(self).next_packet_id == old(self).next_packet_id,
    {
        let mut h = packet.header;
        if h.dest.is_broadcast() {
            h.want_ack = false;
        }
        if h.sender == ctx.node_id {
            h.hop_start = h.hop_limit;
        }
        let out = MeshPacket { header: h, ..packet };
        let s = out.stored();
        self.radio_interface.send(s);
        s
    }

    /// Marks `packet` seen and sends it.
    pub fn flood_send(&mut self, ctx: &MeshContext, packet: MeshPacket)
        requires
            old(self).wf(),
            packet.header.dest != Destination::Node(ctx.node_id),
        ensures
            final(self).wf(),
            final(self).seen_recently@.contains(packet.key()),
            grows(old(self).seen_recently@, final(self).seen_recently@),
            final(self).radio_interface@ == old(self).radio_interface@.push(
                (MeshPacket { header: sent_header(packet.header, ctx.node_id), ..packet }).stored_spec(),
            ),
            final(self).from_radio_queue@ == old(self).from_radio_queue@,
            final(self).pending@ == old(self).pending@,
            final(self).next_packet_id == old(self).next_packet_id,
    {
        let key = GlobalPacketId { node_id: packet.header.sender, packet_id: packet.header.packet_id };
        let seen = self.was_seen_recently(key);
        proof {
            if !seen {
                assert(self.seen_recently@.last() == key);
                assert forall|g: GlobalPacketId| old(self).seen_recently@.contains(g) implies self.seen_recently@.contains(g) by {
                    let i = choose|i: int| 0 <= i < old(self).seen_recently@.len() && old(self).seen_recently@[i] == g;
                    assert(self.seen_recently@[i] == g);
                }
            }
        }
        let ghost s0 = self.seen_recently@;
        self.base_send(ctx, packet);
        assert(self.seen_recently@ == s0);
    }

    /// The wait before trying `packet` again.
    fn retransmission_wait(ctx: &MeshContext, packet: &MeshPacket) -> (r: Time)
        requires
            ctx.wf(),
            packet.size_ok(),
        ensures
            r@ == crate::radio::retransmission_delay_spec(
                air_time_micros(
                    packet.size as int,
                    ctx.settings.sf as int,
                    ctx.settings.coding_rate as int,
                    ctx.settings.bandwidth@,
                ),
                ctx.cw as int,
                ctx.settings.bandwidth@,
                ctx.settings.sf as int,
            ),
    {
        proof {
            lemma_air_time_bounds(
                packet.size as int,
                ctx.settings.sf as int,
                ctx.settings.coding_rate as int,
                ctx.settings.bandwidth@,
            );
        }
        let air = calculate_air_time(packet.size, &ctx.settings);
        retransmission_delay(air, ctx.cw, ctx.settings.bandwidth, ctx.settings.sf)
    }

    /// Sends `packet` reliably: where it wants an acknowledgment (with a hop
    /// limit of zero raised to the default) it is pending again from now; the
    /// other pending entries wait its air time longer; then it is flooded.
    pub fn reliable_send(&mut self, ctx: &MeshContext, packet: MeshPacket, effects: &mut MeshEffects)
        requires
            old(self).wf(),
            ctx.wf(),
            packet.size_ok(),
            packet.header.dest != Destination::Node(ctx.node_id),
        ensures
            final(self).wf(),
            final(self).from_radio_queue@ == old(self).from_radio_queue@,
            final(self).next_packet_id == old(self).next_packet_id,
            final(effects).radio_send,
            grows(old(self).seen_recently@, final(self).seen_recently@),
            !packet.header.want_ack ==> final(self).pending@.len() == old(self).pending@.len(),
            !packet.header.want_ack ==> final(self).radio_interface@ == old(self).radio_interface@.push(
                (MeshPacket { header: sent_header(packet.header, ctx.node_id), ..packet }).stored_spec(),
            ) && final(self).pending@ == bumped_all(
                old(self).pending@,
                air_of(*ctx, packet.size as int),
                Some(packet.header.packet_id),
            ),
            final(effects).notify_routing == (old(effects).notify_routing || packet.header.want_ack),
            packet.header.want_ack ==> exists|i: int|
                0 <= i < final(self).pending@.len() && (#[trigger] final(self).pending@[i]).0 == packet.key()
                    && final(self).pending@[i].1.num_retransmissions == NUM_RETRANSMISSIONS - 1
                    && final(self).pending@[i].1.next_tx@ == add_sat(
                    ctx.now@,
                    crate::radio::retransmission_delay_spec(
                        air_time_micros(
                            packet.size as int,
                            ctx.settings.sf as int,
                            ctx.settings.coding_rate as int,
                            ctx.settings.bandwidth@,
                        ),
                        ctx.cw as int,
                        ctx.settings.bandwidth@,
                        ctx.settings.sf as int,
                    ),
                ),
    {
        let mut p = packet;
        if p.header.want_ack {
            if p.header.hop_limit == 0 {
                p.header.hop_limit = DEFAULT_HOP_LIMIT;
            }
            let wait = Self::retransmission_wait(ctx, &p);
            let key = GlobalPacketId { node_id: p.header.sender, packet_id: p.header.packet_id };
            self.stop_retransmission(key);
            let ghost p0 = self.pending@;
            self.pending.push(
                (key, PendingPacket { packet: p, next_tx: time_add(ctx.now, wait), num_retransmissions: NUM_RETRANSMISSIONS - 1 }),
            );
            assert forall|j: int| 0 <= j < self.pending@.len() implies (#[trigger] self.pending@[j]).1.packet.size_ok() && 0 <= self.pending@[j].1.num_retransmissions < NUM_RETRANSMISSIONS by {
                if j < p0.len() {
                    assert(self.pending@[j] == p0[j]);
                }
            }
            effects.notify_routing = true;
        }
        proof {
            lemma_air_time_bounds(
                p.size as int,
                ctx.settings.sf as int,
                ctx.settings.coding_rate as int,
                ctx.settings.bandwidth@,
            );
        }
        let air = calculate_air_time(p.size, &ctx.settings);
        let ghost before = self.pending@;
        self.bump_pending(air, Some(p.header.packet_id));
        proof {
            if packet.header.want_ack {
                let last = before.len() - 1;
                assert(before[last].0 == packet.key());
                assert(self.pending@[last] == bumped(before[last], air, Some(p.header.packet_id)));
                assert(self.pending@[last] == before[last]);
            }
        }
        self.flood_send(ctx, p);
        effects.radio_send = true;
    }

    /// Sends a packet this node made: to itself it goes to the routing
    /// thread's queue; otherwise it is sent reliably.
    pub fn send_local(&mut self, ctx: &MeshContext, packet: MeshPacket, effects: &mut MeshEffects)
        requires
            old(self).wf(),
            ctx.wf(),
            packet.size_ok(),
        ensures
            final(self).wf(),
            final(self).next_packet_id == old(self).next_packet_id,
            packet.header.dest == Destination::Node(ctx.node_id) ==> final(self).from_radio_queue@ == old(
                self,
            ).from_radio_queue@.push(packet) && final(effects).notify_routing && final(self).radio_interface@
                == old(self).radio_interface@ && final(effects).radio_send == old(effects).radio_send,
            packet.header.dest != Destination::Node(ctx.node_id) ==> final(effects).radio_send,
            packet.header.dest == Destination::Node(ctx.node_id) ==> final(self).pending@ == old(self).pending@
                && final(self).seen_recently@ == old(self).seen_recently@,
            packet.header.dest != Destination::Node(ctx.node_id) && !packet.header.want_ack ==> final(self).radio_interface@
                == old(self).radio_interface@.push(
                (MeshPacket { header: sent_header(packet.header, ctx.node_id), ..packet }).stored_spec(),
            ) && final(self).pending@ == bumped_all(
                old(self).pending@,
                air_of(*ctx, packet.size as int),
                Some(packet.header.packet_id),
            ) && final(self).from_radio_queue@ == old(self).from_radio_queue@,
            old(effects).notify_routing ==> final(effects).notify_routing,
            grows(old(self).seen_recently@, final(self).seen_recently@),
            final(self).from_radio_queue@.len() <= old(self).from_radio_queue@.len() + 1,
            old(self).from_radio_queue@.len() <= final(self).from_radio_queue@.len(),
            forall|q: int| 0 <= q < old(self).from_radio_queue@.len() ==> #[trigger] final(self).from_radio_queue@[q] == old(self).from_radio_queue@[q],
            !packet.header.want_ack ==> final(self).pending@.len() == old(self).pending@.len(),
    {
        if packet.header.dest.is_to_node(ctx.node_id) {
            self.from_radio_queue.push(packet);
            effects.notify_routing = true;
            assert forall|j: int| 0 <= j < self.from_radio_queue@.len() implies (#[trigger] self.from_radio_queue@[j]).size_ok() by {
                if j < old(self).from_radio_queue@.len() {
                    assert(self.from_radio_queue@[j] == old(self).from_radio_queue@[j]);
                }
            }
        } else {
            self.reliable_send(ctx, packet, effects);
        }
    }

    /// Sends a routing status about `packet_id` to `dest` as a new packet.
    pub fn send_ack_nak(
        &mut self,
        ctx: &MeshContext,
        status: RoutingStatus,
        dest: Destination,
        packet_id: u32,
        hop_limit: i32,
        effects: &mut MeshEffects,
    )
        requires
            old(self).wf(),
            ctx.wf(),
            old(self).next_packet_id < u32::MAX,
            0 <= hop_limit <= 1000,
        ensures
            final(self).wf(),
            final(self).next_packet_id == old(self).next_packet_id + 1,
            ({
                let ack = ack_packet(*ctx, status, dest, packet_id, hop_limit, old(self).next_packet_id);
                &&& dest == Destination::Node(ctx.node_id) ==> final(self).from_radio_queue@ == old(self).from_radio_queue@.push(ack)
                    && final(self).radio_interface@ == old(self).radio_interface@
                    && final(self).pending@ == old(self).pending@
                    && final(self).seen_recently@ == old(self).seen_recently@
                &&& dest != Destination::Node(ctx.node_id) ==> final(self).radio_interface@ == old(self).radio_interface@.push(
                    ack.stored_spec(),
                ) && final(self).from_radio_queue@ == old(self).from_radio_queue@ && final(self).pending@ == bumped_all(
                    old(self).pending@,
                    air_of(*ctx, 0),
                    Some(old(self).next_packet_id),
                )
            }),
            old(effects).notify_routing ==> final(effects).notify_routing,
            grows(old(self).seen_recently@, final(self).seen_recently@),
            final(self).from_radio_queue@.len() <= old(self).from_radio_queue@.len() + 1,
            old(self).from_radio_queue@.len() <= final(self).from_radio_queue@.len(),
            forall|q: int| 0 <= q < old(self).from_radio_queue@.len() ==> #[trigger] final(self).from_radio_queue@[q] == old(self).from_radio_queue@[q],
            final(self).pending@.len() == old(self).pending@.len(),
    {
        let id = self.next_id();
        let packet = MeshPacket {
            header: MeshtasticHeader {
                dest,
                sender: ctx.node_id,
                packet_id: id,
                hop_limit,
                hop_start: hop_limit,
                want_ack: false,
            },
            message_content: MessageContent::NodeMessage(CustomContent::RoutingMessage { status, about_id: packet_id }),
            size: 0,
            snr: None,
        };
        self.send_local(ctx, packet, effects);
    }

    /// Forwards a packet that is neither to nor from this node and has hops
    /// left, with one hop fewer. Whether it did.
    pub fn perhaps_rebroadcast(&mut self, ctx: &MeshContext, packet: &MeshPacket, effects: &mut MeshEffects) -> (r: bool)
        requires
            old(self).wf(),
            packet.size_ok(),
        ensures
            final(self).wf(),
            r == (packet.header.dest != Destination::Node(ctx.node_id) && packet.header.sender != ctx.node_id
                && packet.header.hop_limit > 0),
            r ==> final(self).radio_interface@ == old(self).radio_interface@.push(
                (MeshPacket {
                    header: sent_header(MeshtasticHeader { hop_limit: (packet.header.hop_limit - 1) as i32, ..packet.header }, ctx.node_id),
                    ..*packet
                }).stored_spec(),
            ) && final(effects).radio_send,
            !r ==> final(self).radio_interface@ == old(self).radio_interface@ && *final(effects) == *old(effects),
            final(self).from_radio_queue@ == old(self).from_radio_queue@,
            final(self).pending@ == old(self).pending@,
            final(self).seen_recently@ == old(self).seen_recently@,
            final(self).next_packet_id == old(self).next_packet_id,
            final(effects).notify_routing == old(effects).notify_routing,
    {
        if !packet.header.dest.is_to_node(ctx.node_id) && packet.header.sender != ctx.node_id
            && packet.header.hop_limit > 0 {
            let mut p = *packet;
            p.header.hop_limit = p.header.hop_limit - 1;
            self.base_send(ctx, p);
            effects.radio_send = true;
            true
        } else {
            false
        }
    }
}

impl Meshtastic {
    /// Decides whether a received packet is dropped before routing. Our own
    /// packet heard back while pending counts as acknowledged. Every pending
    /// entry waits the packet's air time longer. A packet seen before is
    /// dropped: our queued forward of it is cancelled, and where it is on its
    /// first hop and we do not forward it, an acknowledgment it wants from us
    /// is sent.
    pub fn should_filter_received(&mut self, ctx: &MeshContext, packet: &MeshPacket, effects: &mut MeshEffects) -> (r: bool)
        requires
            old(self).wf(),
            ctx.wf(),
            packet.size_ok(),
            old(self).next_packet_id + 2 < u32::MAX,
        ensures
            final(self).wf(),
            final(self).seen_recently@.contains(packet.key()),
            r == old(self).seen_recently@.contains(packet.key()),
            packet.header.sender == ctx.node_id && pending_has(old(self).pending@, packet.key()) ==> !pending_has(
                final(self).pending@,
                packet.key(),
            ),
            !r ==> final(self).pending@ == bumped_all(
                if packet.header.sender == ctx.node_id {
                    without_key(old(self).pending@, packet.key())
                } else {
                    old(self).pending@
                },
                air_of(*ctx, packet.size as int),
                None,
            ),
            packet.header.sender != ctx.node_id ==> final(self).next_packet_id == old(self).next_packet_id
                + if r && packet.header.hop_start > 0 && packet.header.hop_start == packet.header.hop_limit
                && !forwards(*packet, ctx.node_id) && packet.header.dest == Destination::Node(ctx.node_id)
                && packet.header.want_ack {
                1int
            } else {
                0int
            },
            grows(old(self).seen_recently@, final(self).seen_recently@),
            old(self).from_radio_queue@.len() <= final(self).from_radio_queue@.len(),
            final(self).from_radio_queue@.len() <= old(self).from_radio_queue@.len() + (final(self).next_packet_id - old(self).next_packet_id),
            forall|q: int| 0 <= q < old(self).from_radio_queue@.len() ==> #[trigger] final(self).from_radio_queue@[q] == old(self).from_radio_queue@[q],
            final(self).next_packet_id <= old(self).next_packet_id + 2,
            final(self).next_packet_id >= old(self).next_packet_id,
            old(effects).notify_routing ==> final(effects).notify_routing,
    {
        let key = GlobalPacketId { node_id: packet.header.sender, packet_id: packet.header.packet_id };
        if packet.header.sender == ctx.node_id {
            if self.find_pending(key).is_some() {
                self.send_ack_nak(
                    ctx,
                    RoutingStatus::NotError,
                    Destination::Node(packet.header.sender),
                    packet.header.packet_id,
                    0,
                    effects,
                );
                self.stop_retransmission(key);
            }
        }
        proof {
            lemma_air_time_bounds(
                packet.size as int,
                ctx.settings.sf as int,
                ctx.settings.coding_rate as int,
                ctx.settings.bandwidth@,
            );
            lemma_without_key(old(self).pending@, key);
            assert(self.seen_recently@ == old(self).seen_recently@);
            assert(self.pending@ == if packet.header.sender == ctx.node_id {
                without_key(old(self).pending@, key)
            } else {
                old(self).pending@
            });
        }
        let air = calculate_air_time(packet.size, &ctx.settings);
        let ghost p1 = self.pending@;
        self.bump_pending(air, None);
        proof {
            if !pending_has(p1, key) {
                assert forall|i: int| 0 <= i < self.pending@.len() implies self.pending@[i].0 != key by {
                    assert(self.pending@[i] == bumped(p1[i], air, None::<u32>));
                }
            }
        }
        let ghost seen0 = self.seen_recently@;
        assert(old(self).seen_recently@.contains(key) ==> seen0.contains(key));
        if !self.was_seen_recently(key) {
            assert(self.seen_recently@.last() == key);
            assert forall|g: GlobalPacketId| seen0.contains(g) implies self.seen_recently@.contains(g) by {
                let i = choose|i: int| 0 <= i < seen0.len() && seen0[i] == g;
                assert(self.seen_recently@[i] == g);
            }
            return false;
        }
        self.radio_interface.cancel_sending(key);
        let is_repeated = packet.header.hop_start > 0 && packet.header.hop_start == packet.header.hop_limit;
        if is_repeated {
            if !self.perhaps_rebroadcast(ctx, packet, effects) && packet.header.dest.is_to_node(ctx.node_id)
                && packet.header.want_ack {
                self.send_ack_nak(
                    ctx,
                    RoutingStatus::NotError,
                    Destination::Node(packet.header.sender),
                    packet.header.packet_id,
                    0,
                    effects,
                );
            }
        }
        true
    }

    /// Reliable delivery's look at a routed packet: one addressed to us that
    /// wants an acknowledgment gets one (with the hop limit
    /// `get_hop_limit_for_response` gives, or none for a routing packet on its
    /// first hop); a routing status addressed to us ends the retries of our
    /// packet it is about. Then flooding's look: a reply addressed elsewhere
    /// cancels our forward of it, and the packet may be forwarded.
    pub fn reliable_sniff_received(&mut self, ctx: &MeshContext, packet: &MeshPacket, effects: &mut MeshEffects)
        requires
            old(self).wf(),
            ctx.wf(),
            packet.size_ok(),
            old(self).next_packet_id + 1 < u32::MAX,
        ensures
            final(self).wf(),
            final(self).next_packet_id == old(self).next_packet_id + if acknowledges(*packet, ctx.node_id) {
                1int
            } else {
                0int
            },
            ({
                let hl = if is_routing(*packet) {
                    0int
                } else {
                    crate::node::hop_limit_for_response_spec(packet.header.hop_start as int, packet.header.hop_limit as int)
                };
                let ack = ack_packet(
                    *ctx,
                    RoutingStatus::NotError,
                    Destination::Node(packet.header.sender),
                    packet.header.packet_id,
                    hl as i32,
                    old(self).next_packet_id,
                );
                &&& acknowledges(*packet, ctx.node_id) && packet.header.sender == ctx.node_id ==> final(self).from_radio_queue@.last() == ack
                &&& acknowledges(*packet, ctx.node_id) && packet.header.sender != ctx.node_id ==> final(self).radio_interface@.last() == ack.stored_spec()
            }),
            packet.header.dest == Destination::Node(ctx.node_id) ==> (packet.message_content matches MessageContent::NodeMessage(
                CustomContent::RoutingMessage { status, about_id },
            ) ==> !pending_has(final(self).pending@, GlobalPacketId { node_id: ctx.node_id, packet_id: about_id })),
            forwards(*packet, ctx.node_id) ==> final(effects).radio_send && final(self).radio_interface@.last()
                == forwarded(*packet, ctx.node_id).stored_spec(),
            old(effects).notify_routing ==> final(effects).notify_routing,
            grows(old(self).seen_recently@, final(self).seen_recently@),
            old(self).from_radio_queue@.len() <= final(self).from_radio_queue@.len(),
            final(self).from_radio_queue@.len() <= old(self).from_radio_queue@.len() + (final(self).next_packet_id - old(self).next_packet_id),
            forall|q: int| 0 <= q < old(self).from_radio_queue@.len() ==> #[trigger] final(self).from_radio_queue@[q] == old(self).from_radio_queue@[q],
    {
        let is_to_us = packet.header.dest.is_to_node(ctx.node_id);
        let routing: Option<u32> = match packet.message_content {
            MessageContent::NodeMessage(CustomContent::RoutingMessage { status, about_id }) => Some(about_id),
            _ => None,
        };
        if is_to_us {
            match routing {
                Some(id) => {
                    self.stop_retransmission(GlobalPacketId { node_id: ctx.node_id, packet_id: id });
                },
                None => {},
            }
            let ghost p_stop = self.pending@;
            if packet.header.want_ack {
                if routing.is_none() {
                    let hl = get_hop_limit_for_response(packet.header.hop_start, packet.header.hop_limit);
                    self.send_ack_nak(
                        ctx,
                        RoutingStatus::NotError,
                        Destination::Node(packet.header.sender),
                        packet.header.packet_id,
                        hl,
                        effects,
                    );
                } else if packet.header.hop_start > 0 && packet.header.hop_start == packet.header.hop_limit {
                    self.send_ack_nak(
                        ctx,
                        RoutingStatus::NotError,
                        Destination::Node(packet.header.sender),
                        packet.header.packet_id,
                        0,
                        effects,
                    );
                }
            }
            proof {
                if let Some(id) = routing {
                    let k = GlobalPacketId { node_id: ctx.node_id, packet_id: id };
                    assert(!pending_has(p_stop, k));
                    if self.pending@ != p_stop {
                        assert forall|i: int| 0 <= i < self.pending@.len() implies self.pending@[i].0 != k by {
                            assert(self.pending@[i].0 == p_stop[i].0);
                        }
                    }
                }
            }
        }
        if routing.is_some() && !is_to_us && !packet.header.dest.is_broadcast() {
            self.radio_interface.cancel_sending(
                GlobalPacketId { node_id: packet.header.sender, packet_id: packet.header.packet_id },
            );
        }
        self.perhaps_rebroadcast(ctx, packet, effects);
    }
}

/// The packet carries a routing status.
pub open spec fn is_routing(p: MeshPacket) -> bool {
    p.message_content matches MessageContent::NodeMessage(CustomContent::RoutingMessage { .. })
}

/// Routing `p` at `node` sends an acknowledgment: it is addressed to the node
/// and wants one, and is no routing status unless on its first hop.
pub open spec fn acknowledges(p: MeshPacket, node: usize) -> bool {
    &&& p.header.dest == Destination::Node(node)
    &&& p.header.want_ack
    &&& (!is_routing(p) || (p.header.hop_start > 0 && p.header.hop_start == p.header.hop_limit))
}

/// Flooding forwards `p` at `node`: neither to nor from the node, with hops left.
pub open spec fn forwards(p: MeshPacket, node: usize) -> bool {
    p.header.dest != Destination::Node(node) && p.header.sender != node && p.header.hop_limit > 0
}

/// What goes on air when `node` forwards `p`.
pub open spec fn forwarded(p: MeshPacket, node: usize) -> MeshPacket {
    MeshPacket {
        header: sent_header(MeshtasticHeader { hop_limit: (p.header.hop_limit - 1) as i32, ..p.header }, node),
        ..p
    }
}

/// Longest wait the retry scan reports: `i32::MAX` milliseconds.
pub const NO_RETRY_DELAY_MICROS: u64 = 2_147_483_647_000;

/// The entry's next try has come.
pub open spec fn is_due(e: (GlobalPacketId, PendingPacket), now: int) -> bool {
    e.1.next_tx@ <= now
}

/// The entry after the retry scan, where it is kept: one try fewer and a
/// retransmission wait from now if it was due.
pub open spec fn after_scan(e: (GlobalPacketId, PendingPacket), ctx: MeshContext) -> (GlobalPacketId, PendingPacket) {
    if is_due(e, ctx.now@) {
        (
            e.0,
            PendingPacket {
                next_tx: Time { micros: add_sat(ctx.now@, retry_wait(ctx, e.1.packet)) as u64 },
                num_retransmissions: (e.1.num_retransmissions - 1) as i32,
                ..e.1
            },
        )
    } else {
        e
    }
}

/// The wait before trying `p` again.
pub open spec fn retry_wait(ctx: MeshContext, p: MeshPacket) -> int {
    crate::radio::retransmission_delay_spec(
        air_time_micros(p.size as int, ctx.settings.sf as int, ctx.settings.coding_rate as int, ctx.settings.bandwidth@),
        ctx.cw as int,
        ctx.settings.bandwidth@,
        ctx.settings.sf as int,
    )
}

/// Due with no tries left: given up.
pub open spec fn gives_up(e: (GlobalPacketId, PendingPacket), now: int) -> bool {
    is_due(e, now) && e.1.num_retransmissions == 0
}

/// The pending entries the retry scan keeps, in order.
pub open spec fn kept_after_scan(p: Seq<(GlobalPacketId, PendingPacket)>, ctx: MeshContext) -> Seq<(GlobalPacketId, PendingPacket)>
    decreases p.len(),
{
    if p.len() == 0 {
        Seq::empty()
    } else if gives_up(p.last(), ctx.now@) {
        kept_after_scan(p.drop_last(), ctx)
    } else {
        kept_after_scan(p.drop_last(), ctx).push(after_scan(p.last(), ctx))
    }
}

/// The identities the retry scan gives up, in order.
pub open spec fn given_up(p: Seq<(GlobalPacketId, PendingPacket)>, now: int) -> Seq<GlobalPacketId>
    decreases p.len(),
{
    if p.len() == 0 {
        Seq::empty()
    } else if gives_up(p.last(), now) {
        given_up(p.drop_last(), now).push(p.last().0)
    } else {
        given_up(p.drop_last(), now)
    }
}

/// What goes on air for the packets in `q`, in order, skipping any addressed to `node`.
pub open spec fn resent_of(q: Seq<MeshPacket>, node: usize) -> Seq<StoredPacket>
    decreases q.len(),
{
    if q.len() == 0 {
        Seq::empty()
    } else if q.last().header.dest == Destination::Node(node) {
        resent_of(q.drop_last(), node)
    } else {
        resent_of(q.drop_last(), node).push(
            (MeshPacket { header: sent_header(q.last().header, node), ..q.last() }).stored_spec(),
        )
    }
}

/// The packets the retry scan sends again, in order.
pub open spec fn resent_after_scan(p: Seq<(GlobalPacketId, PendingPacket)>, ctx: MeshContext) -> Seq<StoredPacket> {
    resent_of(due_packets(p, ctx.now@), ctx.node_id)
}

/// The packets of due entries with tries left.
pub open spec fn due_packets(p: Seq<(GlobalPacketId, PendingPacket)>, now: int) -> Seq<MeshPacket>
    decreases p.len(),
{
    if p.len() == 0 {
        Seq::empty()
    } else if is_due(p.last(), now) && !gives_up(p.last(), now) {
        due_packets(p.drop_last(), now).push(p.last().1.packet)
    } else {
        due_packets(p.drop_last(), now)
    }
}

/// The wait from now to the earliest next try among the entries kept, or
/// `NO_RETRY_DELAY_MICROS` where that is sooner or none is kept.
pub open spec fn scan_wait(p: Seq<(GlobalPacketId, PendingPacket)>, ctx: MeshContext) -> int
    decreases p.len(),
{
    if p.len() == 0 {
        NO_RETRY_DELAY_MICROS as int
    } else {
        let rest = scan_wait(p.drop_last(), ctx);
        if gives_up(p.last(), ctx.now@) {
            rest
        } else {
            let w = after_scan(p.last(), ctx).1.next_tx@ - ctx.now@;
            if w < rest { w } else { rest }
        }
    }
}

/// `p` is a `MaxRetransmit` status about `k` for `k`'s origin.
pub open spec fn nak_for(p: MeshPacket, k: GlobalPacketId) -> bool {
    p.header.dest == Destination::Node(k.node_id) && p.message_content == MessageContent::NodeMessage(
        CustomContent::RoutingMessage { status: RoutingStatus::MaxRetransmit, about_id: k.packet_id },
    )
}

pub open spec fn has_nak(q: Seq<MeshPacket>, k: GlobalPacketId) -> bool {
    exists|i: int| 0 <= i < q.len() && nak_for(q[i], k)
}

proof fn lemma_kept_len(p: Seq<(GlobalPacketId, PendingPacket)>, ctx: MeshContext)
    ensures
        kept_after_scan(p, ctx).len() <= p.len(),
    decreases p.len(),
{
    if p.len() > 0 {
        lemma_kept_len(p.drop_last(), ctx);
    }
}

proof fn lemma_given_up_len(p: Seq<(GlobalPacketId, PendingPacket)>, now: int)
    ensures
        given_up(p, now).len() <= p.len(),
        forall|j: int| 0 <= j < given_up(p, now).len() ==> exists|i: int| 0 <= i < p.len() && p[i].0 == #[trigger] given_up(p, now)[j],
    decreases p.len(),
{
    if p.len() > 0 {
        lemma_given_up_len(p.drop_last(), now);
        assert forall|j: int| 0 <= j < given_up(p, now).len() implies exists|i: int| 0 <= i < p.len() && p[i].0 == #[trigger] given_up(p, now)[j] by {
            if j < given_up(p.drop_last(), now).len() {
                let i = choose|i: int| 0 <= i < p.drop_last().len() && p.drop_last()[i].0 == given_up(p.drop_last(), now)[j];
                assert(p[i] == p.drop_last()[i]);
            } else {
                assert(p[p.len() - 1].0 == given_up(p, now)[j]);
            }
        }
    }
}

proof fn lemma_resent_of_push(q: Seq<MeshPacket>, p: MeshPacket, node: usize)
    ensures
        resent_of(q.push(p), node) == if p.header.dest == Destination::Node(node) {
            resent_of(q, node)
        } else {
            resent_of(q, node).push((MeshPacket { header: sent_header(p.header, node), ..p }).stored_spec())
        },
{
    assert(q.push(p).drop_last() =~= q);
}

impl Meshtastic {
    /// Bound on the packet ids one routing step may take.
    pub open spec fn ids_left(&self) -> bool {
        self.next_packet_id + 5 * (self.from_radio_queue@.len() + self.pending@.len()) + 5 < u32::MAX
    }

    /// Retries what is due (see `kept_after_scan`, `resent_after_scan`,
    /// `given_up` and `scan_wait`): a pending packet of this node's whose next
    /// try has come is sent again with one try fewer and its next try a
    /// retransmission wait from now; with no tries left it is given up, its
    /// queued send cancelled and a `MaxRetransmit` status about it routed to
    /// this node. Entries not yet due are kept unchanged. Returns the wait
    /// until the earliest next try of the entries kept.
    pub fn do_retransmissions(&mut self, ctx: &MeshContext, effects: &mut MeshEffects) -> (r: Time)
        requires
            old(self).wf(),
            ctx.wf(),
            old(self).next_packet_id + old(self).pending@.len() + 1 < u32::MAX,
            forall|i: int| 0 <= i < old(self).pending@.len() ==> (#[trigger] old(self).pending@[i]).0.node_id == ctx.node_id,
        ensures
            final(self).wf(),
            final(self).pending@ == kept_after_scan(old(self).pending@, *ctx),
            r@ == scan_wait(old(self).pending@, *ctx),
            final(self).radio_interface@.len() >= resent_after_scan(old(self).pending@, *ctx).len(),
            final(self).radio_interface@.subrange(
                final(self).radio_interface@.len() - resent_after_scan(old(self).pending@, *ctx).len(),
                final(self).radio_interface@.len() as int,
            ) == resent_after_scan(old(self).pending@, *ctx),
            forall|j: int|
                0 <= j < given_up(old(self).pending@, ctx.now@).len() ==> has_nak(
                    final(self).from_radio_queue@,
                    #[trigger] given_up(old(self).pending@, ctx.now@)[j],
                ),
            final(self).next_packet_id == old(self).next_packet_id + given_up(old(self).pending@, ctx.now@).len(),
            final(self).next_packet_id <= old(self).next_packet_id + old(self).pending@.len(),
            old(self).from_radio_queue@.len() <= final(self).from_radio_queue@.len(),
            final(self).from_radio_queue@.len() <= old(self).from_radio_queue@.len() + old(self).pending@.len(),
            forall|q: int| 0 <= q < old(self).from_radio_queue@.len() ==> #[trigger] final(self).from_radio_queue@[q] == old(self).from_radio_queue@[q],
            final(self).pending@.len() <= old(self).pending@.len(),
            old(effects).notify_routing ==> final(effects).notify_routing,
            grows(old(self).seen_recently@, final(self).seen_recently@),
    {
        let now = ctx.now;
        let n = self.pending.len();
        let mut kept: Vec<(GlobalPacketId, PendingPacket)> = Vec::new();
        let mut resend: Vec<MeshPacket> = Vec::new();
        let mut stops: Vec<GlobalPacketId> = Vec::new();
        let mut delay = Time { micros: NO_RETRY_DELAY_MICROS };
        let mut i: usize = 0;
        while i < n
            invariant
                self.wf(),
                ctx.wf(),
                n == self.pending@.len(),
                *self == *old(self),
                now == ctx.now,
                i <= n,
                kept@ == kept_after_scan(self.pending@.take(i as int), *ctx),
                resend@.len() <= i,
                stops@ == given_up(self.pending@.take(i as int), now@),
                delay@ == scan_wait(self.pending@.take(i as int), *ctx),
                pending_ok(kept@),
                packets_ok(resend@),
                resend@ == due_packets(self.pending@.take(i as int), now@),
                old(effects).notify_routing ==> effects.notify_routing,
            decreases n - i,
        {
            let (k, p) = self.pending[i];
            proof {
                assert(self.pending@.take(i as int + 1).drop_last() =~= self.pending@.take(i as int));
                assert(self.pending@.take(i as int + 1).last() == (k, p));
            }
            if p.next_tx.micros <= now.micros {
                if p.num_retransmissions == 0 {
                    stops.push(k);
                } else {
                    let wait = Self::retransmission_wait(ctx, &p.packet);
                    let np = PendingPacket {
                        packet: p.packet,
                        next_tx: time_add(now, wait),
                        num_retransmissions: p.num_retransmissions - 1,
                    };
                    kept.push((k, np));
                    let ghost r0 = resend@;
                    resend.push(p.packet);
                    proof {
                        assert(is_due((k, p), ctx.now@));
                        assert(!gives_up((k, p), ctx.now@));
                        assert(np.next_tx@ == add_sat(ctx.now@, retry_wait(*ctx, p.packet)));
                        assert(after_scan((k, p), *ctx) == (k, np));
                        assert forall|j: int| 0 <= j < kept@.len() implies (#[trigger] kept@[j]).1.packet.size_ok()
                            && 0 <= kept@[j].1.num_retransmissions < NUM_RETRANSMISSIONS by {}
                        assert forall|j: int| 0 <= j < resend@.len() implies (#[trigger] resend@[j]).size_ok() by {
                            if j < r0.len() {
                                assert(resend@[j] == r0[j]);
                            }
                        }
                    }
                    effects.notify_routing = true;
                    let left = np.next_tx.micros - now.micros;
                    if left < delay.micros {
                        delay = Time { micros: left };
                    }
                }
            } else {
                kept.push((k, p));
                let left = p.next_tx.micros - now.micros;
                if left < delay.micros {
                    delay = Time { micros: left };
                }
            }
            i += 1;
        }
        assert(self.pending@.take(n as int) =~= self.pending@);
        proof {
            lemma_given_up_len(self.pending@, now@);
            lemma_kept_len(self.pending@, *ctx);
            assert forall|j: int| 0 <= j < stops@.len() implies (#[trigger] stops@[j]).node_id == ctx.node_id by {
                let x = choose|x: int| 0 <= x < self.pending@.len() && self.pending@[x].0 == given_up(self.pending@, now@)[j];
                assert(old(self).pending@[x].0.node_id == ctx.node_id);
            }
        }
        self.pending = kept;
        let ghost radio0 = self.radio_interface@;
        let mut b: usize = 0;
        while b < stops.len()
            invariant
                self.wf(),
                ctx.wf(),
                b <= stops@.len(),
                stops@ == given_up(old(self).pending@, now@),
                stops@.len() <= n,
                now == ctx.now,
                n == old(self).pending@.len(),
                resend@ == due_packets(old(self).pending@, now@),
                forall|j: int| 0 <= j < stops@.len() ==> (#[trigger] stops@[j]).node_id == ctx.node_id,
                self.pending@ == kept_after_scan(old(self).pending@, *ctx),
                self.next_packet_id == old(self).next_packet_id + b,
                old(self).next_packet_id + n + 1 < u32::MAX,
                old(self).from_radio_queue@.len() <= self.from_radio_queue@.len() <= old(self).from_radio_queue@.len() + b,
                forall|q: int| 0 <= q < old(self).from_radio_queue@.len() ==> #[trigger] self.from_radio_queue@[q] == old(self).from_radio_queue@[q],
                forall|j: int| 0 <= j < b ==> has_nak(self.from_radio_queue@, #[trigger] stops@[j]),
                self.seen_recently@ == old(self).seen_recently@,
                old(effects).notify_routing ==> effects.notify_routing,
            decreases stops@.len() - b,
        {
            let key = stops[b];
            self.radio_interface.cancel_sending(key);
            let id = self.next_id();
            let nak = MeshPacket {
                header: MeshtasticHeader {
                    dest: Destination::Node(key.node_id),
                    sender: ctx.node_id,
                    packet_id: id,
                    hop_limit: 0,
                    hop_start: 0,
                    want_ack: false,
                },
                message_content: MessageContent::NodeMessage(
                    CustomContent::RoutingMessage { status: RoutingStatus::MaxRetransmit, about_id: key.packet_id },
                ),
                size: 0,
                snr: None,
            };
            let ghost f0 = self.from_radio_queue@;
            self.from_radio_queue.push(nak);
            effects.notify_routing = true;
            proof {
                assert forall|j: int| 0 <= j < self.from_radio_queue@.len() implies (#[trigger] self.from_radio_queue@[j]).size_ok() by {
                    if j < f0.len() {
                        assert(self.from_radio_queue@[j] == f0[j]);
                    }
                }
                assert forall|j: int| 0 <= j < b + 1 implies has_nak(self.from_radio_queue@, #[trigger] stops@[j]) by {
                    if j < b {
                        let x = choose|x: int| 0 <= x < f0.len() && nak_for(f0[x], stops@[j]);
                        assert(self.from_radio_queue@[x] == f0[x]);
                    } else {
                        assert(nak_for(self.from_radio_queue@[f0.len() as int], stops@[j]));
                    }
                }
            }
            b += 1;
        }
        let ghost radio1 = self.radio_interface@;
        let ghost queue1 = self.from_radio_queue@;
        let ghost id1 = self.next_packet_id;
        let mut a: usize = 0;
        while a < resend.len()
            invariant
                self.wf(),
                ctx.wf(),
                a <= resend@.len(),
                packets_ok(resend@),
                self.pending@ == kept_after_scan(old(self).pending@, *ctx),
                self.radio_interface@.len() >= radio1.len(),
                self.radio_interface@.subrange(radio1.len() as int, self.radio_interface@.len() as int)
                    == resent_of(resend@.take(a as int), ctx.node_id),
                self.from_radio_queue@ == queue1,
                self.next_packet_id == id1,
                grows(old(self).seen_recently@, self.seen_recently@),
                old(effects).notify_routing ==> effects.notify_routing,
            decreases resend@.len() - a,
        {
            let pk = resend[a];
            assert(resend@.take(a as int + 1).drop_last() =~= resend@.take(a as int));
            assert(resend@.take(a as int + 1).last() == pk);
            let ghost rr = self.radio_interface@;
            proof {
                lemma_resent_of_push(resend@.take(a as int), pk, ctx.node_id);
            }
            if !pk.header.dest.is_to_node(ctx.node_id) {
                let ghost s0 = self.seen_recently@;
                self.flood_send(ctx, pk);
                assert forall|g: GlobalPacketId| old(self).seen_recently@.contains(g) implies self.seen_recently@.contains(g) by {
                    assert(s0.contains(g));
                }
                assert(self.radio_interface@.subrange(radio1.len() as int, self.radio_interface@.len() as int)
                    =~= rr.subrange(radio1.len() as int, rr.len() as int).push(
                    (MeshPacket { header: sent_header(pk.header, ctx.node_id), ..pk }).stored_spec(),
                ));
            }
            a += 1;
        }
        assert(resend@.take(resend@.len() as int) =~= resend@);
        delay
    }

}

impl Meshtastic {
    /// A packet from the radio waits for the routing thread, which the caller
    /// wakes in 1 ms.
    pub fn receive_message(&mut self, packet: MeshPacket)
        requires
            old(self).wf(),
            packet.size_ok(),
        ensures
            final(self).wf(),
            final(self).from_radio_queue@ == old(self).from_radio_queue@.push(packet),
            final(self).radio_interface@ == old(self).radio_interface@,
            final(self).pending@ == old(self).pending@,
            final(self).seen_recently@ == old(self).seen_recently@,
            final(self).next_packet_id == old(self).next_packet_id,
    {
        self.from_radio_queue.push(packet);
        assert forall|j: int| 0 <= j < self.from_radio_queue@.len() implies (#[trigger] self.from_radio_queue@[j]).size_ok() by {
            if j < old(self).from_radio_queue@.len() {
                assert(self.from_radio_queue@[j] == old(self).from_radio_queue@[j]);
            }
        }
    }

    /// Sends a user message as a new packet of this node's, with the
    /// default hops and an acknowledgment wanted.
    pub fn generate_message(
        &mut self,
        ctx: &MeshContext,
        message_id: MessageContent,
        message_info: &MessageInfo,
        effects: &mut MeshEffects,
    ) -> (r: MeshPacket)
        requires
            old(self).wf(),
            ctx.wf(),
            0 <= message_info.size <= MAX_MESSAGE_SIZE,
            old(self).next_packet_id < u32::MAX,
        ensures
            final(self).wf(),
            r == (MeshPacket {
                header: MeshtasticHeader {
                    dest: std_destination_spec(message_info.targets@),
                    sender: ctx.node_id,
                    packet_id: old(self).next_packet_id,
                    hop_limit: DEFAULT_HOP_LIMIT,
                    hop_start: DEFAULT_HOP_LIMIT,
                    want_ack: true,
                },
                message_content: message_id,
                size: message_info.size,
                snr: None,
            }),
            final(self).next_packet_id == old(self).next_packet_id + 1,
            r.header.dest == Destination::Node(ctx.node_id) ==> final(self).from_radio_queue@ == old(
                self,
            ).from_radio_queue@.push(r),
            r.header.dest != Destination::Node(ctx.node_id) ==> final(effects).radio_send && exists|i: int|
                0 <= i < final(self).pending@.len() && (#[trigger] final(self).pending@[i]).0 == r.key(),
    {
        let id = self.next_id();
        let packet = MeshPacket {
            header: MeshtasticHeader {
                dest: message_info.std_destination(),
                sender: ctx.node_id,
                packet_id: id,
                hop_limit: DEFAULT_HOP_LIMIT,
                hop_start: DEFAULT_HOP_LIMIT,
                want_ack: true,
            },
            message_content: message_id,
            size: message_info.size,
            snr: None,
        };
        if packet.header.dest.is_to_node(ctx.node_id) {
            self.send_local(ctx, packet, effects);
        } else {
            self.reliable_send(ctx, packet, effects);
        }
        packet
    }

    /// Routes one packet from the radio unless it is filtered out.
    pub fn perhaps_handle_received(&mut self, ctx: &MeshContext, packet: MeshPacket, effects: &mut MeshEffects)
        requires
            old(self).wf(),
            ctx.wf(),
            packet.size_ok(),
            old(self).next_packet_id + 4 < u32::MAX,
        ensures
            final(self).wf(),
            final(self).next_packet_id <= old(self).next_packet_id + 3,
            final(self).next_packet_id >= old(self).next_packet_id,
            final(self).seen_recently@.contains(packet.key()),
            grows(old(self).seen_recently@, final(self).seen_recently@),
            old(effects).notify_routing ==> final(effects).notify_routing,
            old(self).from_radio_queue@.len() <= final(self).from_radio_queue@.len(),
            final(self).from_radio_queue@.len() <= old(self).from_radio_queue@.len() + (final(self).next_packet_id - old(self).next_packet_id),
            forall|q: int| 0 <= q < old(self).from_radio_queue@.len() ==> #[trigger] final(self).from_radio_queue@[q] == old(self).from_radio_queue@[q],
            old(self).seen_recently@.contains(packet.key()) && packet.header.sender == ctx.node_id && pending_has(
                old(self).pending@,
                packet.key(),
            ) ==> !pending_has(final(self).pending@, packet.key()),
            old(self).seen_recently@.contains(packet.key()) && packet.header.sender != ctx.node_id ==> final(self).next_packet_id
                == old(self).next_packet_id + if packet.header.hop_start > 0 && packet.header.hop_start == packet.header.hop_limit
                && !forwards(packet, ctx.node_id) && packet.header.dest == Destination::Node(ctx.node_id)
                && packet.header.want_ack {
                1int
            } else {
                0int
            },
            !old(self).seen_recently@.contains(packet.key()) && packet.header.sender != ctx.node_id && acknowledges(
                packet,
                ctx.node_id,
            ) ==> final(self).radio_interface@.last() == ack_packet(
                *ctx,
                RoutingStatus::NotError,
                Destination::Node(packet.header.sender),
                packet.header.packet_id,
                (if is_routing(packet) {
                    0int
                } else {
                    crate::node::hop_limit_for_response_spec(packet.header.hop_start as int, packet.header.hop_limit as int)
                }) as i32,
                old(self).next_packet_id,
            ).stored_spec(),
            !old(self).seen_recently@.contains(packet.key()) && forwards(packet, ctx.node_id) ==> final(self).radio_interface@.last()
                == forwarded(packet, ctx.node_id).stored_spec(),
            !old(self).seen_recently@.contains(packet.key()) && packet.header.dest == Destination::Node(ctx.node_id) ==> (
            packet.message_content matches MessageContent::NodeMessage(CustomContent::RoutingMessage { status, about_id })
                ==> !pending_has(final(self).pending@, GlobalPacketId { node_id: ctx.node_id, packet_id: about_id })),
    {
        if self.should_filter_received(ctx, &packet, effects) {
            return;
        }
        let ghost s0 = self.seen_recently@;
        self.reliable_sniff_received(ctx, &packet, effects);
        assert(s0.contains(packet.key()));
        assert forall|g: GlobalPacketId| old(self).seen_recently@.contains(g) implies self.seen_recently@.contains(g) by {
            assert(s0.contains(g));
        }
    }

    /// The routing thread: retries what is due (`do_retransmissions`), then
    /// routes the packets waiting from the radio, and those it queues for
    /// itself meanwhile, one at a time (`perhaps_handle_received`) until none
    /// is left or packet ids run short. Returns when to run next: after the
    /// wait until the next retry, or `None` where that is 48 hours or more.
    pub fn run_routing_thread(&mut self, ctx: &MeshContext, effects: &mut MeshEffects) -> (r: Option<Time>)
        requires
            old(self).wf(),
            ctx.wf(),
            old(self).ids_left(),
            forall|i: int| 0 <= i < old(self).pending@.len() ==> (#[trigger] old(self).pending@[i]).0.node_id == ctx.node_id,
        ensures
            final(self).wf(),
            r == if scan_wait(old(self).pending@, *ctx) < MAX_ROUTING_DELAY_MICROS {
                Some(Time { micros: scan_wait(old(self).pending@, *ctx) as u64 })
            } else {
                None
            },
            final(self).from_radio_queue@.len() == 0 || final(self).next_packet_id + 8 >= u32::MAX,
            old(effects).notify_routing ==> final(effects).notify_routing,
            grows(old(self).seen_recently@, final(self).seen_recently@),
            final(self).from_radio_queue@.len() == 0 ==> forall|i: int|
                0 <= i < old(self).from_radio_queue@.len() ==> final(self).seen_recently@.contains(
                    (#[trigger] old(self).from_radio_queue@[i]).key(),
                ),
    {
        let delay = self.do_retransmissions(ctx, effects);
        let ghost q_old = old(self).from_radio_queue@;
        let ghost mut taken: Seq<MeshPacket> = Seq::empty();
        while self.from_radio_queue.len() > 0 && self.next_packet_id < u32::MAX - 8
            invariant
                self.wf(),
                ctx.wf(),
                grows(old(self).seen_recently@, self.seen_recently@),
                old(effects).notify_routing ==> effects.notify_routing,
                forall|j: int| 0 <= j < taken.len() ==> self.seen_recently@.contains(#[trigger] taken[j].key()),
                q_old.len() <= taken.len() + self.from_radio_queue@.len(),
                forall|q: int|
                    0 <= q < q_old.len() ==> #[trigger] q_old[q] == if q < taken.len() {
                        taken[q]
                    } else {
                        self.from_radio_queue@[q - taken.len()]
                    },
            decreases 2 * (u32::MAX - self.next_packet_id) + self.from_radio_queue@.len(),
        {
            let ghost f0 = self.from_radio_queue@;
            let pk = self.from_radio_queue.remove(0);
            assert(pk == f0[0]);
            assert(pk.size_ok()) by {
                assert(f0[0].size_ok());
            }
            assert forall|j: int| 0 <= j < self.from_radio_queue@.len() implies (#[trigger] self.from_radio_queue@[j]).size_ok() by {
                assert(self.from_radio_queue@[j] == f0[j + 1]);
            }
            let ghost f1 = self.from_radio_queue@;
            let ghost s0 = self.seen_recently@;
            self.perhaps_handle_received(ctx, pk, effects);
            proof {
                let t0 = taken;
                taken = taken.push(pk);
                assert forall|j: int| 0 <= j < taken.len() implies self.seen_recently@.contains(#[trigger] taken[j].key()) by {
                    if j < t0.len() {
                        assert(s0.contains(t0[j].key()));
                    }
                }
                assert forall|g: GlobalPacketId| old(self).seen_recently@.contains(g) implies self.seen_recently@.contains(g) by {
                    assert(s0.contains(g));
                }
                assert forall|q: int| 0 <= q < q_old.len() implies #[trigger] q_old[q] == if q < taken.len() {
                    taken[q]
                } else {
                    self.from_radio_queue@[q - taken.len()]
                } by {
                    if q >= taken.len() {
                        assert(f1[q - taken.len()] == f0[q - t0.len()]);
                        assert(self.from_radio_queue@[q - taken.len()] == f1[q - taken.len()]);
                    }
                }
            }
        }
        proof {
            if self.from_radio_queue@.len() == 0 {
                assert forall|i: int| 0 <= i < q_old.len() implies self.seen_recently@.contains((#[trigger] q_old[i]).key()) by {
                    assert(q_old[i] == taken[i]);
                }
            }
        }
        if delay.micros < MAX_ROUTING_DELAY_MICROS {
            Some(delay)
        } else {
            None
        }
    }
}

} // verus!
