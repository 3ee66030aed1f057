use vstd::prelude::*;

verus! {

/// Hop limit a Meshtastic packet starts with.
pub const DEFAULT_HOP_LIMIT: i32 = 3;

/// Size in bytes of every header on air.
pub const HEADER_SIZE: i32 = 16;

/// Where a packet is addressed.
#[derive(Clone, Copy, Debug, PartialEq, Eq, Structural)]
pub enum Destination {
    Broadcast,
    Node(usize),
}

impl Destination {
    /// False for a broadcast; otherwise whether it addresses `node_id`.
    pub fn is_to_node(self, node_id: usize) -> (r: bool)
        ensures
            r == (self == Destination::Node(node_id)),
    {
        match self {
            Destination::Broadcast => false,
            Destination::Node(id) => id == node_id,
        }
    }

    pub fn is_broadcast(self) -> (r: bool)
        ensures
            r == (self == Destination::Broadcast),
    {
        match self {
            Destination::Broadcast => true,
            Destination::Node(_) => false,
        }
    }
}

/// The simulated threads a node model may run.
#[derive(Clone, Copy, Debug, PartialEq, Eq, Structural, Hash)]
pub enum NodeThread {
    RadioThread,
    RoutingThread,
    CacheThread,
}

/// What a simulated thread is woken for.
#[derive(Clone, Copy, Debug, PartialEq, Eq, Structural)]
pub enum Notification {
    TransmitDelayCompleted,
    Routing,
    InfoTimer,
    CachedHost,
}

/// Outcome of reliable delivery, reported about a packet id.
#[derive(Clone, Copy, Debug, PartialEq, Eq, Structural)]
pub enum RoutingStatus {
    NotError,
    MaxRetransmit,
}

/// Identifies a packet across all its rebroadcasts: its origin and the id the
/// origin gave it.
#[derive(Clone, Copy, Debug, PartialEq, Eq, Structural, Hash)]
pub struct GlobalPacketId {
    pub node_id: usize,
    pub packet_id: u32,
}

/// A payload made by a node model itself.
#[derive(Clone, Copy, Debug, PartialEq, Eq, Structural)]
pub enum CustomContent {
    RoutingMessage { status: RoutingStatus, about_id: u32 },
    GlobalAck { id: GlobalPacketId },
}

impl CustomContent {
    /// Size in bytes.
    pub fn size(&self) -> (r: i32)
        ensures
            r == 8,
    {
        match self {
            CustomContent::RoutingMessage { .. } => 8,
            CustomContent::GlobalAck { .. } => 8,
        }
    }
}

/// What a transmission carries.
#[derive(Clone, Copy, Debug, PartialEq, Eq, Structural)]
pub enum MessageContent {
    /// A user message, by its index in the scenario.
    GeneratedMessage(usize),
    NodeMessage(CustomContent),
    Empty,
}

/// Fields that every header has.
pub trait BasicHeaderInfo {
    fn dest(&self) -> Destination;

    fn sender(&self) -> usize;

    fn packet_id(&self) -> u32;
}

/// The plain header: destination, sender and packet id.
#[derive(Clone, Copy, Debug, PartialEq, Eq, Structural)]
pub struct BasicHeader {
    pub dest: Destination,
    pub sender: usize,
    pub packet_id: u32,
}

/// The Meshtastic header, which adds hop counting and acknowledgment requests.
#[derive(Clone, Copy, Debug, PartialEq, Eq, Structural)]
pub struct MeshtasticHeader {
    pub dest: Destination,
    pub sender: usize,
    pub packet_id: u32,
    pub hop_limit: i32,
    pub hop_start: i32,
    pub want_ack: bool,
}

impl BasicHeaderInfo for BasicHeader {
    fn dest(&self) -> Destination {
        self.dest
    }

    fn sender(&self) -> usize {
        self.sender
    }

    fn packet_id(&self) -> u32 {
        self.packet_id
    }
}

impl BasicHeaderInfo for MeshtasticHeader {
    fn dest(&self) -> Destination {
        self.dest
    }

    fn sender(&self) -> usize {
        self.sender
    }

    fn packet_id(&self) -> u32 {
        self.packet_id
    }
}

/// A header of either kind.
#[derive(Clone, Copy, Debug, PartialEq, Eq, Structural)]
pub enum Header {
    Basic(BasicHeader),
    Meshtastic(MeshtasticHeader),
}

impl Header {
    pub open spec fn sender_of(self) -> usize {
        match self {
            Header::Basic(h) => h.sender,
            Header::Meshtastic(h) => h.sender,
        }
    }

    pub open spec fn packet_id_of(self) -> u32 {
        match self {
            Header::Basic(h) => h.packet_id,
            Header::Meshtastic(h) => h.packet_id,
        }
    }

    pub open spec fn dest_of(self) -> Destination {
        match self {
            Header::Basic(h) => h.dest,
            Header::Meshtastic(h) => h.dest,
        }
    }

    /// Size in bytes on air.
    pub fn size(&self) -> (r: i32)
        ensures
            r == HEADER_SIZE,
    {
        HEADER_SIZE
    }

    pub fn sender(&self) -> (r: usize)
        ensures
            r == self.sender_of(),
    {
        match self {
            Header::Basic(h) => h.sender,
            Header::Meshtastic(h) => h.sender,
        }
    }

    pub fn packet_id(&self) -> (r: u32)
        ensures
            r == self.packet_id_of(),
    {
        match self {
            Header::Basic(h) => h.packet_id,
            Header::Meshtastic(h) => h.packet_id,
        }
    }

    pub fn dest(&self) -> (r: Destination)
        ensures
            r == self.dest_of(),
    {
        match self {
            Header::Basic(h) => h.dest,
            Header::Meshtastic(h) => h.dest,
        }
    }

    /// The packet's identity across rebroadcasts.
    pub fn global_id(&self) -> (r: GlobalPacketId)
        ensures
            r == (GlobalPacketId { node_id: self.sender_of(), packet_id: self.packet_id_of() }),
    {
        GlobalPacketId { node_id: self.sender(), packet_id: self.packet_id() }
    }
}

/// Something a node model did that the radio cannot do.
#[derive(Clone, Copy, Debug, PartialEq, Eq, Structural)]
pub enum NodeError {
    /// A send while the node was still transmitting; carries what was to be sent.
    RadioBusyError(Header, MessageContent),
}

/// What a node is told of a user message it must send.
#[derive(Clone, Debug)]
pub struct MessageInfo {
    /// Size in bytes.
    pub size: i32,
    /// Target node ids.
    pub targets: Vec<usize>,
}

/// The destination for a message to `targets`: the node itself for exactly one
/// target, else a broadcast.
pub open spec fn std_destination_spec(targets: Seq<usize>) -> Destination {
    if targets.len() == 1 {
        Destination::Node(targets[0])
    } else {
        Destination::Broadcast
    }
}

impl MessageInfo {
    pub fn std_destination(&self) -> (r: Destination)
        ensures
            r == std_destination_spec(self.targets@),
    {
        if self.targets.len() == 1 {
            Destination::Node(self.targets[0])
        } else {
            Destination::Broadcast
        }
    }
}

/// The plain header for a user message.
pub fn basic_header(sender_id: usize, packet_id: u32, message_info: &MessageInfo) -> (r: BasicHeader)
    ensures
        r == (BasicHeader {
            dest: std_destination_spec(message_info.targets@),
            sender: sender_id,
            packet_id,
        }),
{
    BasicHeader { dest: message_info.std_destination(), sender: sender_id, packet_id }
}

/// The Meshtastic header for a user message: three hops, acknowledgment wanted.
pub fn meshtastic_header(sender_id: usize, packet_id: u32, message_info: &MessageInfo) -> (r:
    MeshtasticHeader)
    ensures
        r == (MeshtasticHeader {
            dest: std_destination_spec(message_info.targets@),
            sender: sender_id,
            packet_id,
            hop_limit: DEFAULT_HOP_LIMIT,
            hop_start: DEFAULT_HOP_LIMIT,
            want_ack: true,
        }),
{
    MeshtasticHeader {
        dest: message_info.std_destination(),
        sender: sender_id,
        packet_id,
        hop_limit: DEFAULT_HOP_LIMIT,
        hop_start: DEFAULT_HOP_LIMIT,
        want_ack: true,
    }
}

/// Hops a reply should be allowed, given what the request used up.
pub open spec fn hop_limit_for_response_spec(hop_start: int, hop_limit: int) -> int {
    if hop_start == 0 {
        DEFAULT_HOP_LIMIT as int
    } else {
        let hops_used = if hop_start < hop_limit {
            DEFAULT_HOP_LIMIT as int
        } else {
            hop_start - hop_limit
        };
        if hops_used > DEFAULT_HOP_LIMIT {
            hops_used
        } else if hops_used + 2 < DEFAULT_HOP_LIMIT {
            hops_used + 2
        } else {
            DEFAULT_HOP_LIMIT as int
        }
    }
}

/// The hop limit for a reply to a packet that started with `hop_start` hops
/// and arrived with `hop_limit` left.
pub fn get_hop_limit_for_response(hop_start: i32, hop_limit: i32) -> (r: i32)
    requires
        hop_start >= hop_limit ==> hop_start - hop_limit <= i32::MAX,
    ensures
        r == hop_limit_for_response_spec(hop_start as int, hop_limit as int),
{
    if hop_start != 0 {
        let hops_used = if hop_start < hop_limit {
            DEFAULT_HOP_LIMIT
        } else {
            hop_start - hop_limit
        };
        if hops_used > DEFAULT_HOP_LIMIT {
            return hops_used;
        } else if hops_used + 2 < DEFAULT_HOP_LIMIT {
            return hops_used + 2;
        }
    }
    DEFAULT_HOP_LIMIT
}

} // verus!
