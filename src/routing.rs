use vstd::prelude::*;

use crate::node::{
    basic_header, meshtastic_header, BasicHeader, CustomContent, Destination, GlobalPacketId, Header,
    MeshtasticHeader, MessageContent, MessageInfo, std_destination_spec, DEFAULT_HOP_LIMIT,
};
use crate::radio::{RadioInterface, StoredPacket};
use crate::rng::SimRng;
use crate::units::{Db, Time};

verus! {

/// Hops a packet travels before probabilistic flooding starts dropping it.
pub const MIN_HOPS: i32 = 2;

/// Chance, in thousandths, that probabilistic flooding forwards a packet.
pub const REBROADCAST_PERMILLE: u32 = 650;

/// Times acknowledged-or-repeat flooding sends a message after the first.
pub const MAX_REBROADCASTS: i32 = 3;

/// Whether `v` holds `key`.
pub fn contains_id(v: &Vec<GlobalPacketId>, key: GlobalPacketId) -> (r: bool)
    ensures
        r == v@.contains(key),
{
    let mut i: usize = 0;
    while i < v.len()
        invariant
            i <= v@.len(),
            forall|j: int| 0 <= j < i ==> v@[j] != key,
        decreases v@.len() - i,
    {
        if v[i] == key {
            return true;
        }
        i += 1;
    }
    false
}

pub open spec fn basic_id(h: BasicHeader) -> GlobalPacketId {
    GlobalPacketId { node_id: h.sender, packet_id: h.packet_id }
}

pub open spec fn mesh_id(h: MeshtasticHeader) -> GlobalPacketId {
    GlobalPacketId { node_id: h.sender, packet_id: h.packet_id }
}

/// Sends user messages straight away and ignores everything it hears.
pub struct NoRouting {
    pub next_packet_id: u32,
}

impl NoRouting {
    pub fn new() -> (r: NoRouting)
        ensures
            r.next_packet_id == 0,
    {
        NoRouting { next_packet_id: 0 }
    }

    pub fn identity_str(&self) -> (r: &'static str) {
        "No Routing 1.0"
    }

    /// The header and content to send at once for a user message.
    pub fn generate_message(
        &mut self,
        node_id: usize,
        message_id: MessageContent,
        message_info: &MessageInfo,
    ) -> (r: (BasicHeader, MessageContent))
        requires
            old(self).next_packet_id < u32::MAX,
        ensures
            r.0 == (BasicHeader {
                dest: std_destination_spec(message_info.targets@),
                sender: node_id,
                packet_id: old(self).next_packet_id,
            }),
            r.1 == message_id,
            final(self).next_packet_id == old(self).next_packet_id + 1,
    {
        let header = basic_header(node_id, self.next_packet_id, message_info);
        self.next_packet_id = self.next_packet_id + 1;
        (header, message_id)
    }
}

/// What handling a packet does to managed flooding's state, and whether a
/// forward is queued: a packet seen before cancels the queued forward of it;
/// a new one not addressed to the node, and not sent by it before, is queued.
pub open spec fn managed_receive_spec(
    old_state: SimpleManagedFlooding,
    new_state: SimpleManagedFlooding,
    node_id: usize,
    header: BasicHeader,
    message_content: MessageContent,
    payload_size: i32,
    snr: Db,
    r: bool,
) -> bool {
                let key = basic_id(header);
                let packet = StoredPacket {
                    header: Header::Basic(header),
                    message_content,
                    size: payload_size,
                    snr: Some(snr),
                };
                let forward = header.dest != Destination::Node(node_id) && !old_state.sent@.contains(
                    key,
                );
                &&& new_state.next_packet_id == old_state.next_packet_id
                &&& old_state.seen@.contains(key) ==> {
                    &&& !r
                    &&& new_state.seen@ == old_state.seen@
                    &&& new_state.sent@ == old_state.sent@
                    &&& new_state.radio_interface@.len() + 1 == old_state.radio_interface@.len()
                        <==> exists|i: int|
                        0 <= i < old_state.radio_interface@.len()
                            && old_state.radio_interface@[i].global_id_spec() == key
                    &&& (forall|i: int|
                        0 <= i < old_state.radio_interface@.len()
                            ==> old_state.radio_interface@[i].global_id_spec() != key)
                        ==> new_state.radio_interface@ == old_state.radio_interface@
                }
                &&& !old_state.seen@.contains(key) ==> {
                    &&& r == forward
                    &&& new_state.seen@ == old_state.seen@.push(key)
                    &&& forward ==> new_state.sent@ == old_state.sent@.push(key)
                        && new_state.radio_interface@ == old_state.radio_interface@.push(packet)
                    &&& !forward ==> new_state.sent@ == old_state.sent@
                        && new_state.radio_interface@ == old_state.radio_interface@
                }
            }

/// Flooding that forwards each packet once, and drops its own pending forward
/// of a packet that it hears again before sending it.
pub struct SimpleManagedFlooding {
    pub seen: Vec<GlobalPacketId>,
    pub sent: Vec<GlobalPacketId>,
    pub radio_interface: RadioInterface,
    pub next_packet_id: u32,
}

impl SimpleManagedFlooding {
    pub fn new() -> (r: SimpleManagedFlooding)
        ensures
            r.seen@.len() == 0,
            r.sent@.len() == 0,
            r.radio_interface@.len() == 0,
            r.next_packet_id == 0,
    {
        SimpleManagedFlooding {
            seen: Vec::new(),
            sent: Vec::new(),
            radio_interface: RadioInterface::new(),
            next_packet_id: 0,
        }
    }

    pub fn identity_str(&self) -> (r: &'static str) {
        "Simple Managed Flooding 1.0"
    }

    /// Handles a packet node `node_id` read at `snr`. A packet seen before
    /// cancels this node's queued forward of it. A new one not addressed to
    /// this node, and not sent by it before, is queued to be forwarded; the
    /// result says whether it was, and the caller then starts a backoff.
    pub fn receive_message(
        &mut self,
        node_id: usize,
        header: BasicHeader,
        message_content: MessageContent,
        payload_size: i32,
        snr: Db,
    ) -> (r: bool)
        ensures
            managed_receive_spec(*old(self), *final(self), node_id, header, message_content, payload_size, snr, r),
    {
        let key = GlobalPacketId { node_id: header.sender, packet_id: header.packet_id };
        if contains_id(&self.seen, key) {
            self.radio_interface.cancel_sending(key);
            return false;
        }
        let packet = StoredPacket {
            header: Header::Basic(header),
            message_content,
            size: payload_size,
            snr: Some(snr),
        };
        let mut forwarded = false;
        if !header.dest.is_to_node(node_id) && !contains_id(&self.sent, key) {
            self.sent.push(key);
            self.radio_interface.send(packet);
            forwarded = true;
        }
        self.seen.push(key);
        forwarded
    }

    /// Queues a user message as a new packet of this node's; the caller then
    /// starts a backoff.
    pub fn generate_message(
        &mut self,
        node_id: usize,
        message_id: MessageContent,
        message_info: &MessageInfo,
    ) -> (r: StoredPacket)
        requires
            old(self).next_packet_id < u32::MAX,
        ensures
            r == (StoredPacket {
                header: Header::Basic(
                    BasicHeader {
                        dest: std_destination_spec(message_info.targets@),
                        sender: node_id,
                        packet_id: old(self).next_packet_id,
                    },
                ),
                message_content: message_id,
                size: message_info.size,
                snr: None,
            }),
            final(self).radio_interface@ == old(self).radio_interface@.push(r),
            final(self).sent@ == old(self).sent@.push(r.global_id_spec()),
            final(self).seen@ == old(self).seen@.push(r.global_id_spec()),
            final(self).next_packet_id == old(self).next_packet_id + 1,
    {
        let header = basic_header(node_id, self.next_packet_id, message_info);
        self.next_packet_id = self.next_packet_id + 1;
        let packet = StoredPacket {
            header: Header::Basic(header),
            message_content: message_id,
            size: message_info.size,
            snr: None,
        };
        let key = GlobalPacketId { node_id: header.sender, packet_id: header.packet_id };
        self.radio_interface.send(packet);
        self.sent.push(key);
        self.seen.push(key);
        packet
    }
}

/// Flooding that always forwards over the first hops, and then forwards with
/// a fixed chance.
pub struct ProbabilisticFlood {
    pub seen: Vec<GlobalPacketId>,
    pub radio_interface: RadioInterface,
    pub next_packet_id: u32,
}

/// Whether forwarding a packet with `header` needs a random draw: it is not
/// addressed to `node_id` and has travelled at least `MIN_HOPS` hops.
pub open spec fn needs_draw_spec(header: MeshtasticHeader, node_id: usize) -> bool {
    header.dest != Destination::Node(node_id) && header.hop_start - header.hop_limit >= MIN_HOPS
}

/// What handling a packet with `draw` does to the flood's state, and whether
/// a forward is queued.
pub open spec fn receive_spec(
    old_state: ProbabilisticFlood,
    new_state: ProbabilisticFlood,
    node_id: usize,
    header: MeshtasticHeader,
    message_content: MessageContent,
    payload_size: i32,
    snr: Db,
    draw: u32,
    r: bool,
) -> bool {
    let key = mesh_id(header);
    let forward = header.dest != Destination::Node(node_id) && (header.hop_start - header.hop_limit
        < MIN_HOPS || draw < REBROADCAST_PERMILLE);
    let packet = StoredPacket {
        header: Header::Meshtastic(MeshtasticHeader { hop_limit: (header.hop_limit - 1) as i32, ..header }),
        message_content,
        size: payload_size,
        snr: Some(snr),
    };
    &&& new_state.next_packet_id == old_state.next_packet_id
    &&& old_state.seen@.contains(key) ==> !r && new_state.seen@ == old_state.seen@
        && new_state.radio_interface@ == old_state.radio_interface@
    &&& !old_state.seen@.contains(key) ==> {
        &&& r == forward
        &&& new_state.seen@ == old_state.seen@.push(key)
        &&& forward ==> new_state.radio_interface@ == old_state.radio_interface@.push(packet)
        &&& !forward ==> new_state.radio_interface@ == old_state.radio_interface@
    }
}

impl ProbabilisticFlood {
    pub fn new() -> (r: ProbabilisticFlood)
        ensures
            r.seen@.len() == 0,
            r.radio_interface@.len() == 0,
            r.next_packet_id == 0,
    {
        ProbabilisticFlood { seen: Vec::new(), radio_interface: RadioInterface::new(), next_packet_id: 0 }
    }

    pub fn identity_str(&self) -> (r: &'static str) {
        "Probabilistic Flood"
    }

    /// Whether handling `header` at `node_id` takes a random draw (a new
    /// packet only; see `needs_draw_spec`).
    pub fn needs_draw(&self, node_id: usize, header: MeshtasticHeader) -> (r: bool)
        requires
            header.hop_start - header.hop_limit <= i32::MAX,
            header.hop_start - header.hop_limit >= i32::MIN,
        ensures
            r == (!self.seen@.contains(mesh_id(header)) && needs_draw_spec(header, node_id)),
    {
        let key = GlobalPacketId { node_id: header.sender, packet_id: header.packet_id };
        !contains_id(&self.seen, key) && !header.dest.is_to_node(node_id) && header.hop_start
            - header.hop_limit >= MIN_HOPS
    }

    /// Handles a packet read at `snr`, drawing from `rng` only where the
    /// decision needs it (see `receive_with_draw`). The result says whether a
    /// forward was queued.
    pub fn receive_message(
        &mut self,
        rng: &mut SimRng,
        node_id: usize,
        header: MeshtasticHeader,
        message_content: MessageContent,
        payload_size: i32,
        snr: Db,
    ) -> (r: bool)
        requires
            header.hop_start - header.hop_limit <= i32::MAX,
            header.hop_start - header.hop_limit >= i32::MIN,
            header.hop_limit > i32::MIN,
        ensures
            exists|draw: u32|
                draw < 1000 && receive_spec(*old(self), *final(self), node_id, header, message_content, payload_size, snr, draw, r),
    {
        let draw: u32 = if self.needs_draw(node_id, header) {
            rng.below(1000) as u32
        } else {
            0
        };
        self.receive_with_draw(node_id, header, message_content, payload_size, snr, draw)
    }

    /// Handles a packet read at `snr`. A new packet not addressed to this node
    /// is forwarded with one hop fewer where it has travelled fewer than
    /// `MIN_HOPS` hops, or else where `draw`, a whole number drawn uniformly
    /// in `0..1000`, is below `REBROADCAST_PERMILLE`. The result says whether
    /// it was queued.
    pub fn receive_with_draw(
        &mut self,
        node_id: usize,
        header: MeshtasticHeader,
        message_content: MessageContent,
        payload_size: i32,
        snr: Db,
        draw: u32,
    ) -> (r: bool)
        requires
            header.hop_start - header.hop_limit <= i32::MAX,
            header.hop_start - header.hop_limit >= i32::MIN,
            header.hop_limit > i32::MIN,
        ensures
            receive_spec(*old(self), *final(self), node_id, header, message_content, payload_size, snr, draw, r),
    {
        let key = GlobalPacketId { node_id: header.sender, packet_id: header.packet_id };
        if contains_id(&self.seen, key) {
            return false;
        }
        let mut forwarded = false;
        if !header.dest.is_to_node(node_id) {
            let always = header.hop_start - header.hop_limit < MIN_HOPS;
            if always || draw < REBROADCAST_PERMILLE {
                let mut h = header;
                h.hop_limit = h.hop_limit - 1;
                let packet = StoredPacket {
                    header: Header::Meshtastic(h),
                    message_content,
                    size: payload_size,
                    snr: Some(snr),
                };
                self.radio_interface.send(packet);
                forwarded = true;
            }
        }
        self.seen.push(key);
        forwarded
    }

    /// Queues a user message as a new packet with a Meshtastic header.
    pub fn generate_message(
        &mut self,
        node_id: usize,
        message_id: MessageContent,
        message_info: &MessageInfo,
    ) -> (r: StoredPacket)
        requires
            old(self).next_packet_id < u32::MAX,
        ensures
            r == (StoredPacket {
                header: Header::Meshtastic(
                    MeshtasticHeader {
                        dest: std_destination_spec(message_info.targets@),
                        sender: node_id,
                        packet_id: old(self).next_packet_id,
                        hop_limit: DEFAULT_HOP_LIMIT,
                        hop_start: DEFAULT_HOP_LIMIT,
                        want_ack: true,
                    },
                ),
                message_content: message_id,
                size: message_info.size,
                snr: None,
            }),
            final(self).radio_interface@ == old(self).radio_interface@.push(r),
            final(self).seen@ == old(self).seen@,
            final(self).next_packet_id == old(self).next_packet_id + 1,
    {
        let header = meshtastic_header(node_id, self.next_packet_id, message_info);
        self.next_packet_id = self.next_packet_id + 1;
        let packet = StoredPacket {
            header: Header::Meshtastic(header),
            message_content: message_id,
            size: message_info.size,
            snr: None,
        };
        self.radio_interface.send(packet);
        packet
    }
}

/// The first entry of `q` whose packet has identity `key`.
pub open spec fn first_rebroadcast(q: Seq<(StoredPacket, i32)>, key: GlobalPacketId, i: int) -> bool {
    0 <= i < q.len() && q[i].0.global_id_spec() == key && forall|j: int|
        0 <= j < i ==> q[j].0.global_id_spec() != key
}

/// Flooding that repeats each message a few times at random intervals until
/// it hears an acknowledgment of it.
pub struct AcknowledgedOrRepeatFlood {
    /// Packets waiting to be sent again, each with the repeats it has left.
    pub rebroadcasts: Vec<(StoredPacket, i32)>,
    pub acknowledgements: Vec<GlobalPacketId>,
    pub radio_interface: RadioInterface,
    pub next_packet_id: u32,
}

impl AcknowledgedOrRepeatFlood {
    pub fn new() -> (r: AcknowledgedOrRepeatFlood)
        ensures
            r.rebroadcasts@.len() == 0,
            r.acknowledgements@.len() == 0,
            r.radio_interface@.len() == 0,
            r.next_packet_id == 0,
    {
        AcknowledgedOrRepeatFlood {
            rebroadcasts: Vec::new(),
            acknowledgements: Vec::new(),
            radio_interface: RadioInterface::new(),
            next_packet_id: 0,
        }
    }

    pub fn identity_str(&self) -> (r: &'static str) {
        "Acknowledged Or Repeat Flood 1.1"
    }

    /// Drops the first pending repeat of packet `key`, and any queued send of
    /// it; whether there was a pending repeat.
    pub fn remove_from_rebroadcasts(&mut self, key: GlobalPacketId) -> (r: bool)
        ensures
            final(self).acknowledgements@ == old(self).acknowledgements@,
            final(self).next_packet_id == old(self).next_packet_id,
            r == exists|i: int| first_rebroadcast(old(self).rebroadcasts@, key, i),
            !r ==> final(self).rebroadcasts@ == old(self).rebroadcasts@ && final(self).radio_interface@
                == old(self).radio_interface@,
            r ==> exists|i: int|
                first_rebroadcast(old(self).rebroadcasts@, key, i) && final(self).rebroadcasts@ == old(self).rebroadcasts@.remove(i),
            r ==> (exists|i: int|
                0 <= i < old(self).radio_interface@.len()
                    && old(self).radio_interface@[i].global_id_spec() == key) == (final(self).radio_interface@.len() + 1 == old(self).radio_interface@.len()),
    {
        let mut i: usize = 0;
        while i < self.rebroadcasts.len()
            invariant
                i <= self.rebroadcasts@.len(),
                *self == *old(self),
                forall|j: int| 0 <= j < i ==> self.rebroadcasts@[j].0.global_id_spec() != key,
            decreases self.rebroadcasts@.len() - i,
        {
            let id = self.rebroadcasts[i].0.global_id();
            if id.node_id == key.node_id && id.packet_id == key.packet_id {
                assert(first_rebroadcast(old(self).rebroadcasts@, key, i as int));
                self.rebroadcasts.remove(i);
                self.radio_interface.cancel_sending(key);
                return true;
            }
            i += 1;
        }
        false
    }

    /// Handles a packet read at `snr`. Addressed to this node: an
    /// acknowledgment of it is broadcast as a new packet, and both are marked
    /// acknowledged. Otherwise, unless already acknowledged: an acknowledgment
    /// it carries cancels the repeats of what it acknowledges; then a packet
    /// already pending is cancelled and marked acknowledged, and a new one is
    /// put first among the pending repeats. The result says whether a packet
    /// was queued for sending; the caller then starts a backoff.
    pub fn receive_message(
        &mut self,
        node_id: usize,
        header: BasicHeader,
        message_content: MessageContent,
        payload_size: i32,
        snr: Db,
    ) -> (r: bool)
        requires
            old(self).next_packet_id < u32::MAX,
        ensures
            ({
                let key = basic_id(header);
                let ack = StoredPacket {
                    header: Header::Basic(
                        BasicHeader {
                            dest: Destination::Broadcast,
                            sender: node_id,
                            packet_id: old(self).next_packet_id,
                        },
                    ),
                    message_content: MessageContent::NodeMessage(CustomContent::GlobalAck { id: key }),
                    size: 0,
                    snr: None,
                };
                &&& header.dest == Destination::Node(node_id) ==> {
                    &&& r
                    &&& final(self).radio_interface@ == old(self).radio_interface@.push(ack)
                    &&& final(self).acknowledgements@ == old(self).acknowledgements@.push(
                        ack.global_id_spec(),
                    ).push(key)
                    &&& final(self).rebroadcasts@ == old(self).rebroadcasts@
                    &&& final(self).next_packet_id == old(self).next_packet_id + 1
                }
                &&& header.dest != Destination::Node(node_id) ==> {
                    &&& !r
                    &&& final(self).next_packet_id == old(self).next_packet_id
                    &&& old(self).acknowledgements@.contains(key) ==> final(self).rebroadcasts@ == old(self).rebroadcasts@ && final(self).radio_interface@ == old(self).radio_interface@
                        && final(self).acknowledgements@ == old(self).acknowledgements@
                    &&& forall|g: GlobalPacketId|
                        old(self).acknowledgements@.contains(g) ==> final(self).acknowledgements@.contains(g)
                    &&& !old(self).acknowledgements@.contains(key) ==> (message_content matches MessageContent::NodeMessage(
                        CustomContent::GlobalAck { id },
                    ) ==> final(self).acknowledgements@.contains(id))
                    &&& !old(self).acknowledgements@.contains(key) && !(message_content is NodeMessage) ==> {
                        let packet = StoredPacket {
                            header: Header::Basic(header),
                            message_content,
                            size: payload_size,
                            snr: Some(snr),
                        };
                        &&& (exists|i: int| first_rebroadcast(old(self).rebroadcasts@, key, i)) ==> final(self).acknowledgements@.contains(key) && exists|i: int|
                            first_rebroadcast(old(self).rebroadcasts@, key, i) && final(self).rebroadcasts@
                                == old(self).rebroadcasts@.remove(i)
                        &&& !(exists|i: int| first_rebroadcast(old(self).rebroadcasts@, key, i)) ==> final(self).rebroadcasts@ == seq![(packet, MAX_REBROADCASTS)] + old(self).rebroadcasts@
                    }
                }
            }),
    {
        let key = GlobalPacketId { node_id: header.sender, packet_id: header.packet_id };
        if header.dest.is_to_node(node_id) {
            let pid = self.next_packet_id;
            self.next_packet_id = pid + 1;
            let ack = StoredPacket {
                header: Header::Basic(BasicHeader { dest: Destination::Broadcast, sender: node_id, packet_id: pid }),
                message_content: MessageContent::NodeMessage(CustomContent::GlobalAck { id: key }),
                size: 0,
                snr: None,
            };
            self.acknowledgements.push(GlobalPacketId { node_id, packet_id: pid });
            self.radio_interface.send(ack);
            self.acknowledgements.push(key);
            return true;
        }
        if contains_id(&self.acknowledgements, key) {
            return false;
        }
        let ghost acks0 = self.acknowledgements@;
        match message_content {
            MessageContent::NodeMessage(CustomContent::GlobalAck { id }) => {
                self.remove_from_rebroadcasts(id);
                self.acknowledgements.push(id);
                assert(self.acknowledgements@[self.acknowledgements@.len() - 1] == id);
            },
            _ => {},
        }
        let ghost reb1 = self.rebroadcasts@;
        let packet = StoredPacket {
            header: Header::Basic(header),
            message_content,
            size: payload_size,
            snr: Some(snr),
        };
        let ghost acks1 = self.acknowledgements@;
        assert forall|g: GlobalPacketId| acks0.contains(g) implies acks1.contains(g) by {
            if acks1 != acks0 {
                let i = choose|i: int| 0 <= i < acks0.len() && acks0[i] == g;
                assert(acks1[i] == g);
            }
        }
        if self.remove_from_rebroadcasts(key) {
            self.acknowledgements.push(key);
            assert(self.acknowledgements@[self.acknowledgements@.len() - 1] == key);
            assert forall|g: GlobalPacketId| acks1.contains(g) implies self.acknowledgements@.contains(g) by {
                let i = choose|i: int| 0 <= i < acks1.len() && acks1[i] == g;
                assert(self.acknowledgements@[i] == g);
            }
            assert forall|g: GlobalPacketId| acks0.contains(g) implies self.acknowledgements@.contains(g) by {
                assert(acks1.contains(g));
            }
        } else {
            self.add_to_rebroadcasts(packet);
        }
        proof {
            if !(message_content is NodeMessage) {
                assert(reb1 == old(self).rebroadcasts@);
                if exists|i: int| first_rebroadcast(old(self).rebroadcasts@, key, i) {
                    assert(self.acknowledgements@.contains(key));
                } else {
                    assert(self.rebroadcasts@ == seq![(packet, MAX_REBROADCASTS)] + old(self).rebroadcasts@);
                }
            }
            if let MessageContent::NodeMessage(CustomContent::GlobalAck { id }) = message_content {
                assert(acks1.contains(id));
                assert(self.acknowledgements@.contains(id));
            }
        }
        false
    }

    /// Puts `packet` first among the pending repeats, with all its repeats left.
    pub fn add_to_rebroadcasts(&mut self, packet: StoredPacket)
        ensures
            final(self).rebroadcasts@ == seq![(packet, MAX_REBROADCASTS)] + old(self).rebroadcasts@,
            final(self).acknowledgements@ == old(self).acknowledgements@,
            final(self).radio_interface@ == old(self).radio_interface@,
            final(self).next_packet_id == old(self).next_packet_id,
    {
        self.rebroadcasts.insert(0, (packet, MAX_REBROADCASTS));
        assert(self.rebroadcasts@ =~= seq![(packet, MAX_REBROADCASTS)] + old(self).rebroadcasts@);
    }

    /// Takes a user message as a new packet of this node's, first among the
    /// pending repeats.
    pub fn generate_message(
        &mut self,
        node_id: usize,
        message_id: MessageContent,
        message_info: &MessageInfo,
    ) -> (r: StoredPacket)
        requires
            old(self).next_packet_id < u32::MAX,
        ensures
            r == (StoredPacket {
                header: Header::Basic(
                    BasicHeader {
                        dest: std_destination_spec(message_info.targets@),
                        sender: node_id,
                        packet_id: old(self).next_packet_id,
                    },
                ),
                message_content: message_id,
                size: message_info.size,
                snr: None,
            }),
            final(self).rebroadcasts@ == seq![(r, MAX_REBROADCASTS)] + old(self).rebroadcasts@,
            final(self).radio_interface@ == old(self).radio_interface@,
            final(self).acknowledgements@ == old(self).acknowledgements@,
            final(self).next_packet_id == old(self).next_packet_id + 1,
    {
        let header = basic_header(node_id, self.next_packet_id, message_info);
        self.next_packet_id = self.next_packet_id + 1;
        let packet = StoredPacket {
            header: Header::Basic(header),
            message_content: message_id,
            size: message_info.size,
            snr: None,
        };
        self.add_to_rebroadcasts(packet);
        packet
    }

    /// The routing thread's step: the first pending packet is queued for
    /// sending; a user message with repeats left goes back last with one fewer,
    /// otherwise the packet is marked acknowledged. Whether a packet was
    /// queued; the caller then starts a backoff and the next routing delay.
    pub fn run_routing_thread(&mut self) -> (r: bool)
        ensures
            r == (old(self).rebroadcasts@.len() > 0),
            old(self).rebroadcasts@.len() == 0 ==> final(self).rebroadcasts@ == old(self).rebroadcasts@
                && final(self).radio_interface@ == old(self).radio_interface@
                && final(self).acknowledgements@ == old(self).acknowledgements@,
            old(self).rebroadcasts@.len() > 0 ==> ({
                let (p, count) = old(self).rebroadcasts@[0];
                let rest = old(self).rebroadcasts@.drop_first();
                &&& final(self).radio_interface@ == old(self).radio_interface@.push(p)
                &&& (p.message_content is GeneratedMessage && count > 0) ==> final(self).rebroadcasts@
                    == rest.push((p, (count - 1) as i32)) && final(self).acknowledgements@ == old(self).acknowledgements@
                &&& (p.message_content is GeneratedMessage && count <= 0) || p.message_content is NodeMessage
                    ==> final(self).rebroadcasts@ == rest && final(self).acknowledgements@ == old(self).acknowledgements@.push(p.global_id_spec())
                &&& p.message_content is Empty ==> final(self).rebroadcasts@ == rest
                    && final(self).acknowledgements@ == old(self).acknowledgements@
            }),
            final(self).next_packet_id == old(self).next_packet_id,
    {
        if self.rebroadcasts.len() == 0 {
            return false;
        }
        let (packet, count) = self.rebroadcasts.remove(0);
        self.radio_interface.send(packet);
        match packet.message_content {
            MessageContent::GeneratedMessage(_) => {
                if count > 0 {
                    self.rebroadcasts.push((packet, count - 1));
                } else {
                    self.acknowledgements.push(packet.global_id());
                }
            },
            MessageContent::NodeMessage(_) => {
                self.acknowledgements.push(packet.global_id());
            },
            MessageContent::Empty => {},
        }
        true
    }
}

/// The wait before acknowledged-or-repeat flooding's routing thread runs
/// again: 1 s plus a whole number of microseconds drawn uniformly below 19 s.
pub fn routing_delay(rng: &mut SimRng) -> (r: Time)
    ensures
        1_000_000 <= r@ < 20_000_000,
{
    let d = rng.below(19_000_000);
    Time { micros: 1_000_000 + d }
}

} // verus!
