use vstd::prelude::*;

use crate::em::{EmField, Transmission};
use crate::node::MessageContent;
use crate::scenario::{MessageMarker, ScenarioMessage};
use crate::simulation::sent_pairs;
use crate::units::Time;

verus! {

#[derive(Clone, Copy, Debug, PartialEq, Eq, Structural)]
pub enum LogLevel {
    Error,
    Info,
    Debug,
    Trace,
}

/// Who wrote a log entry.
#[derive(Clone, Copy, Debug, PartialEq, Eq, Structural)]
pub enum LogSource {
    Simulation,
    Node(usize),
}

/// What a log entry says; the last three are the ones statistics are made of.
#[derive(Clone, Debug)]
pub enum LogContent {
    Text(String),
    TransmissionSent { sender_id: usize, transmission_id: u32 },
    TransmissionReceived { receiver_id: usize, transmission_id: u32 },
    TransmissionBlocked {
        receiver_id: usize,
        target_transmission_id: u32,
        blocking_transmission_id: u32,
    },
}

#[derive(Clone, Debug)]
pub struct LogItem {
    pub time: Time,
    pub log_level: LogLevel,
    pub source: LogSource,
    pub content: LogContent,
}

/// A successful reception: who read which transmission.
#[derive(Clone, Copy, Debug, PartialEq, Eq, Structural)]
pub struct Reception {
    pub receiver_id: usize,
    pub transmission: Transmission,
}

/// The receptions that `logs` record, in log order, as (receiver, transmission id).
pub open spec fn received_pairs(logs: Seq<LogItem>) -> Seq<(usize, u32)>
    decreases logs.len(),
{
    if logs.len() == 0 {
        Seq::empty()
    } else {
        let rest = received_pairs(logs.drop_last());
        match logs.last().content {
            LogContent::TransmissionReceived { receiver_id, transmission_id } => rest.push(
                (receiver_id, transmission_id),
            ),
            _ => rest,
        }
    }
}

/// The field holds a transmission with id `id`.
pub open spec fn has_id(s: Seq<Transmission>, id: u32) -> bool {
    exists|i: int| 0 <= i < s.len() && s[i].id == id
}

/// Every reception the logs record is of a transmission in the field.
pub open spec fn receptions_known(logs: Seq<LogItem>, s: Seq<Transmission>) -> bool {
    forall|k: int| 0 <= k < received_pairs(logs).len() ==> has_id(s, received_pairs(logs)[k].1)
}

/// The receptions the logs record, each with its transmission.
pub fn resolve_receptions(logs: &Vec<LogItem>, field: &EmField) -> (r: Vec<Reception>)
    requires
        receptions_known(logs@, field@),
    ensures
        r@.len() == received_pairs(logs@).len(),
        forall|k: int|
            0 <= k < r@.len() ==> r@[k].receiver_id == received_pairs(logs@)[k].0
                && r@[k].transmission.id == received_pairs(logs@)[k].1 && field@.contains(
                r@[k].transmission,
            ),
{
    let mut out: Vec<Reception> = Vec::new();
    let mut i: usize = 0;
    while i < logs.len()
        invariant
            i <= logs@.len(),
            receptions_known(logs@, field@),
            received_pairs(logs@.take(i as int)).len() == out@.len(),
            forall|k: int|
                0 <= k < out@.len() ==> out@[k].receiver_id == received_pairs(logs@.take(i as int))[k].0
                    && out@[k].transmission.id == received_pairs(logs@.take(i as int))[k].1
                    && field@.contains(out@[k].transmission),
            forall|k: int|
                0 <= k < received_pairs(logs@.take(i as int)).len() ==> received_pairs(logs@.take(i as int))[k]
                    == received_pairs(logs@)[k],
            received_pairs(logs@.take(i as int)).len() <= received_pairs(logs@).len(),
        decreases logs@.len() - i,
    {
        proof {
            lemma_received_pairs_prefix(logs@, i as int + 1);
            assert(logs@.take(i as int + 1).drop_last() =~= logs@.take(i as int));
        }
        match &logs[i].content {
            LogContent::TransmissionReceived { receiver_id, transmission_id } => {
                let ghost k = out@.len() as int;
                assert(received_pairs(logs@.take(i as int + 1))[k] == received_pairs(logs@)[k]);
                assert(has_id(field@, received_pairs(logs@)[k].1));
                match field.find_transmission(*transmission_id) {
                    Some(t) => {
                        out.push(Reception { receiver_id: *receiver_id, transmission: t });
                    },
                    None => {
                        assert(false);
                    },
                }
            },
            _ => {},
        }
        i += 1;
    }
    assert(logs@.take(logs@.len() as int) =~= logs@);
    out
}

/// The pairs of a prefix are a prefix of the pairs.
pub proof fn lemma_received_pairs_prefix(logs: Seq<LogItem>, n: int)
    requires
        0 <= n <= logs.len(),
    ensures
        received_pairs(logs.take(n)).len() <= received_pairs(logs).len(),
        forall|k: int|
            0 <= k < received_pairs(logs.take(n)).len() ==> received_pairs(logs.take(n))[k]
                == received_pairs(logs)[k],
    decreases logs.len() - n,
{
    if n < logs.len() {
        lemma_received_pairs_prefix(logs, n + 1);
        assert(logs.take(n + 1).drop_last() =~= logs.take(n));
    } else {
        assert(logs.take(n) =~= logs);
    }
}

/// How an emergency fared.
#[derive(Clone, Copy, Debug, PartialEq, Eq, Structural)]
pub enum EmergencyResult {
    NotEmergency,
    NotRecieved,
    /// From the first emergency message's generation to the first arrival of
    /// an emergency message at a gateway.
    Latency(Time),
}

/// A message that a node is a target of, whether it arrived, and its
/// quickest arrival.
#[derive(Clone, Copy, Debug, PartialEq, Eq, Structural)]
pub struct WantedMessage {
    pub message_id: usize,
    pub was_received: bool,
    pub latency: Option<Time>,
}

/// The sender of a transmission and the nodes that read it.
#[derive(Clone, Debug)]
pub struct TransmissionGraph {
    pub origin: usize,
    pub targets: Vec<usize>,
}

/// The reception carries user message `m`.
pub open spec fn carries(r: Reception, m: usize) -> bool {
    r.transmission.message_content == MessageContent::GeneratedMessage(m)
}

/// `node` read some transmission carrying user message `m`.
pub open spec fn received_by(recs: Seq<Reception>, node: usize, m: usize) -> bool {
    exists|k: int| 0 <= k < recs.len() && recs[k].receiver_id == node && carries(recs[k], m)
}

/// Time from `generated` to the end of the reception's transmission, or none
/// where it ended first.
pub open spec fn latency_of(r: Reception, generated: Time) -> int {
    if r.transmission.end_time@ >= generated@ {
        r.transmission.end_time@ - generated@
    } else {
        0
    }
}

/// `v` is the least latency over `node`'s receptions of message `m`.
pub open spec fn is_min_latency(
    recs: Seq<Reception>,
    node: usize,
    m: usize,
    generated: Time,
    v: int,
) -> bool {
    &&& exists|k: int|
        0 <= k < recs.len() && recs[k].receiver_id == node && carries(recs[k], m) && latency_of(
            recs[k],
            generated,
        ) == v
    &&& forall|k: int|
        0 <= k < recs.len() && recs[k].receiver_id == node && carries(recs[k], m) ==> latency_of(
            recs[k],
            generated,
        ) >= v
}

/// The record of message `message_id`, generated at `generated`, at `node`.
pub open spec fn wanted_spec(
    recs: Seq<Reception>,
    node: usize,
    message_id: usize,
    generated: Time,
    w: WantedMessage,
) -> bool {
    &&& w.message_id == message_id
    &&& w.was_received == received_by(recs, node, message_id)
    &&& w.was_received ==> (w.latency matches Some(l) && is_min_latency(
        recs,
        node,
        message_id,
        generated,
        l@,
    ))
    &&& !w.was_received ==> w.latency is None
}

/// Whether `node` received message `message_id`, and its least latency.
pub fn wanted_message(
    recs: &Vec<Reception>,
    node: usize,
    message_id: usize,
    generated: Time,
) -> (r: WantedMessage)
    ensures
        wanted_spec(recs@, node, message_id, generated, r),
{
    let mut best: Option<Time> = None;
    let mut i: usize = 0;
    while i < recs.len()
        invariant
            i <= recs@.len(),
            best is None ==> forall|k: int|
                0 <= k < i ==> !(recs@[k].receiver_id == node && carries(recs@[k], message_id)),
            best matches Some(b) ==> is_min_latency(recs@.take(i as int), node, message_id, generated, b@),
        decreases recs@.len() - i,
    {
        let r = recs[i];
        let is_it = match r.transmission.message_content {
            MessageContent::GeneratedMessage(m) => m == message_id,
            _ => false,
        };
        let ghost pre = recs@.take(i as int);
        let ghost post = recs@.take(i as int + 1);
        assert(post =~= pre.push(r));
        if r.receiver_id == node && is_it {
            let lat = if r.transmission.end_time.micros >= generated.micros {
                r.transmission.end_time.micros - generated.micros
            } else {
                0
            };
            let nb = match best {
                Some(b) => if lat < b.micros { Time { micros: lat } } else { b },
                None => Time { micros: lat },
            };
            proof {
                assert(latency_of(post[i as int], generated) == lat);
                if best is Some {
                    let b = best->Some_0;
                    let k0 = choose|k: int|
                        0 <= k < pre.len() && pre[k].receiver_id == node && carries(pre[k], message_id)
                            && latency_of(pre[k], generated) == b@;
                    assert(post[k0] == pre[k0]);
                    assert forall|k: int|
                        0 <= k < post.len() && post[k].receiver_id == node && carries(post[k], message_id)
                            implies latency_of(post[k], generated) >= nb@ by {
                        if k < i {
                            assert(post[k] == pre[k]);
                        }
                    }
                } else {
                    assert forall|k: int|
                        0 <= k < post.len() && post[k].receiver_id == node && carries(post[k], message_id)
                            implies latency_of(post[k], generated) >= nb@ by {
                        if k < i {
                            assert(post[k] == pre[k]);
                        }
                    }
                }
            }
            best = Some(nb);
        } else {
            proof {
                if best is Some {
                    let b = best->Some_0;
                    let k0 = choose|k: int|
                        0 <= k < pre.len() && pre[k].receiver_id == node && carries(pre[k], message_id)
                            && latency_of(pre[k], generated) == b@;
                    assert(post[k0] == pre[k0]);
                    assert forall|k: int|
                        0 <= k < post.len() && post[k].receiver_id == node && carries(post[k], message_id)
                            implies latency_of(post[k], generated) >= b@ by {
                        if k < i {
                            assert(post[k] == pre[k]);
                        }
                    }
                }
            }
        }
        i += 1;
    }
    assert(recs@.take(recs@.len() as int) =~= recs@);
    match best {
        Some(b) => WantedMessage { message_id, was_received: true, latency: Some(b) },
        None => WantedMessage { message_id, was_received: false, latency: None },
    }
}

/// How many of the records say the message arrived.
pub open spec fn count_received(ws: Seq<WantedMessage>) -> nat
    decreases ws.len(),
{
    if ws.len() == 0 {
        0
    } else {
        count_received(ws.drop_last()) + if ws.last().was_received {
            1nat
        } else {
            0nat
        }
    }
}

/// A node's reception rate as `(received, wanted)`: the share of the messages
/// it wanted that arrived, and `(1, 1)` where it wanted none. The rate lies in
/// `[0, 1]`.
pub fn reception_rate(wanted: &Vec<WantedMessage>) -> (r: (u64, u64))
    requires
        wanted@.len() <= u64::MAX,
    ensures
        wanted@.len() == 0 ==> r == (1u64, 1u64),
        wanted@.len() > 0 ==> r.0 == count_received(wanted@) && r.1 == wanted@.len(),
        r.0 <= r.1,
        r.1 > 0,
{
    if wanted.len() == 0 {
        return (1, 1);
    }
    let mut received: u64 = 0;
    let mut i: usize = 0;
    while i < wanted.len()
        invariant
            i <= wanted@.len(),
            wanted@.len() <= u64::MAX,
            received == count_received(wanted@.take(i as int)),
            received <= i,
        decreases wanted@.len() - i,
    {
        assert(wanted@.take(i as int + 1).drop_last() =~= wanted@.take(i as int));
        if wanted[i].was_received {
            received += 1;
        }
        i += 1;
    }
    assert(wanted@.take(wanted@.len() as int) =~= wanted@);
    (received, wanted.len() as u64)
}

pub open spec fn is_emergency(m: ScenarioMessage) -> bool {
    m.markers@.contains(MessageMarker::Emergency)
}

/// Reception `r` is of an emergency message at a gateway.
pub open spec fn emergency_arrival(r: Reception, messages: Seq<ScenarioMessage>, is_gateway: Seq<bool>) -> bool {
    &&& r.receiver_id < is_gateway.len()
    &&& is_gateway[r.receiver_id as int]
    &&& r.transmission.message_content matches MessageContent::GeneratedMessage(m) && m
        < messages.len() && is_emergency(messages[m as int])
}

/// The emergency outcome: none without an emergency message; otherwise not
/// received without an emergency arrival at a gateway; otherwise the time from
/// the earliest emergency generation to the earliest such arrival (none where
/// the arrival came first).
pub open spec fn emergency_spec(
    messages: Seq<ScenarioMessage>,
    recs: Seq<Reception>,
    is_gateway: Seq<bool>,
    r: EmergencyResult,
) -> bool {
    if !(exists|i: int| 0 <= i < messages.len() && is_emergency(messages[i])) {
        r == EmergencyResult::NotEmergency
    } else if !(exists|k: int| 0 <= k < recs.len() && emergency_arrival(recs[k], messages, is_gateway)) {
        r == EmergencyResult::NotRecieved
    } else {
        exists|start: int, arrival: int|
            #![trigger first_emergency(messages, start), first_arrival(recs, messages, is_gateway, arrival)]
            first_emergency(messages, start) && first_arrival(recs, messages, is_gateway, arrival)
                && r == EmergencyResult::Latency(
                Time { micros: (if arrival >= start { arrival - start } else { 0 }) as u64 },
            )
    }
}

/// `start` is the earliest generation time of an emergency message.
pub open spec fn first_emergency(messages: Seq<ScenarioMessage>, start: int) -> bool {
    &&& exists|i: int|
        0 <= i < messages.len() && is_emergency(messages[i]) && messages[i].generate_time@ == start
    &&& forall|i: int|
        0 <= i < messages.len() && is_emergency(messages[i]) ==> messages[i].generate_time@ >= start
}

/// `arrival` is the earliest end of an emergency arrival at a gateway.
pub open spec fn first_arrival(
    recs: Seq<Reception>,
    messages: Seq<ScenarioMessage>,
    is_gateway: Seq<bool>,
    arrival: int,
) -> bool {
    &&& exists|k: int|
        0 <= k < recs.len() && emergency_arrival(recs[k], messages, is_gateway)
            && recs[k].transmission.end_time@ == arrival
    &&& forall|k: int|
        0 <= k < recs.len() && emergency_arrival(recs[k], messages, is_gateway)
            ==> recs[k].transmission.end_time@ >= arrival
}

/// How long the emergency took to reach a gateway; `is_gateway[n]` says
/// whether node `n` is one.
pub fn emergency_result(
    messages: &Vec<ScenarioMessage>,
    recs: &Vec<Reception>,
    is_gateway: &Vec<bool>,
) -> (r: EmergencyResult)
    ensures
        emergency_spec(messages@, recs@, is_gateway@, r),
{
    let mut start: Option<Time> = None;
    let mut i: usize = 0;
    while i < messages.len()
        invariant
            i <= messages@.len(),
            start is None ==> forall|j: int| 0 <= j < i ==> !is_emergency(messages@[j]),
            start matches Some(t) ==> (exists|j: int| 0 <= j < i && is_emergency(messages@[j]) && messages@[j].generate_time@ == t@)
                && forall|j: int| 0 <= j < i && is_emergency(messages@[j]) ==> messages@[j].generate_time@ >= t@,
        decreases messages@.len() - i,
    {
        if messages[i].is_emergency() {
            let g = messages[i].generate_time;
            start = match start {
                Some(t) => if g.micros < t.micros { Some(g) } else { Some(t) },
                None => Some(g),
            };
        }
        i += 1;
    }
    let start = match start {
        Some(t) => t,
        None => {
            return EmergencyResult::NotEmergency;
        },
    };
    let mut arrival: Option<Time> = None;
    let mut k: usize = 0;
    while k < recs.len()
        invariant
            k <= recs@.len(),
            arrival is None ==> forall|j: int| 0 <= j < k ==> !emergency_arrival(recs@[j], messages@, is_gateway@),
            arrival matches Some(t) ==> (exists|j: int| 0 <= j < k && emergency_arrival(recs@[j], messages@, is_gateway@) && recs@[j].transmission.end_time@ == t@)
                && forall|j: int| 0 <= j < k && emergency_arrival(recs@[j], messages@, is_gateway@) ==> recs@[j].transmission.end_time@ >= t@,
        decreases recs@.len() - k,
    {
        let r = recs[k];
        let mut hit = false;
        if r.receiver_id < is_gateway.len() && is_gateway[r.receiver_id] {
            match r.transmission.message_content {
                MessageContent::GeneratedMessage(m) => {
                    if m < messages.len() && messages[m].is_emergency() {
                        hit = true;
                    }
                },
                _ => {},
            }
        }
        assert(hit == emergency_arrival(r, messages@, is_gateway@));
        if hit {
            let e = r.transmission.end_time;
            arrival = match arrival {
                Some(t) => if e.micros < t.micros { Some(e) } else { Some(t) },
                None => Some(e),
            };
        }
        k += 1;
    }
    match arrival {
        None => EmergencyResult::NotRecieved,
        Some(a) => {
            let d = if a.micros >= start.micros { a.micros - start.micros } else { 0 };
            let r = EmergencyResult::Latency(Time { micros: d });
            assert(first_emergency(messages@, start@));
            assert(first_arrival(recs@, messages@, is_gateway@, a@));
            r
        },
    }
}

/// How many of the records arrived within `threshold`.
pub open spec fn count_within(ws: Seq<WantedMessage>, threshold: int) -> nat
    decreases ws.len(),
{
    if ws.len() == 0 {
        0
    } else {
        count_within(ws.drop_last(), threshold) + if ws.last().latency matches Some(l) && l@
            <= threshold {
            1nat
        } else {
            0nat
        }
    }
}

/// Records that arrived within `threshold`, over all nodes.
pub open spec fn all_within(all: Seq<Vec<WantedMessage>>, threshold: int) -> nat
    decreases all.len(),
{
    if all.len() == 0 {
        0
    } else {
        all_within(all.drop_last(), threshold) + count_within(all.last()@, threshold)
    }
}

/// Records over all nodes.
pub open spec fn total_wanted(all: Seq<Vec<WantedMessage>>) -> nat
    decreases all.len(),
{
    if all.len() == 0 {
        0
    } else {
        total_wanted(all.drop_last()) + all.last()@.len()
    }
}

proof fn lemma_count_within_bound(ws: Seq<WantedMessage>, threshold: int)
    ensures
        count_within(ws, threshold) <= ws.len(),
    decreases ws.len(),
{
    if ws.len() > 0 {
        lemma_count_within_bound(ws.drop_last(), threshold);
    }
}

proof fn lemma_all_within_bound(all: Seq<Vec<WantedMessage>>, threshold: int)
    ensures
        all_within(all, threshold) <= total_wanted(all),
    decreases all.len(),
{
    if all.len() > 0 {
        lemma_all_within_bound(all.drop_last(), threshold);
        lemma_count_within_bound(all.last()@, threshold);
    }
}

/// Reception within `threshold` as `(arrived in time, wanted)` over all
/// nodes' records; the first never exceeds the second.
pub fn threshold_reception(wanted_messages: &Vec<Vec<WantedMessage>>, threshold: Time) -> (r: (u64, u64))
    requires
        total_wanted(wanted_messages@) <= u64::MAX,
    ensures
        r.0 == all_within(wanted_messages@, threshold@),
        r.1 == total_wanted(wanted_messages@),
        r.0 <= r.1,
{
    let mut within: u64 = 0;
    let mut total: u64 = 0;
    let mut i: usize = 0;
    proof {
        lemma_total_prefix_bound(wanted_messages@, 0);
    }
    while i < wanted_messages.len()
        invariant
            i <= wanted_messages@.len(),
            total_wanted(wanted_messages@) <= u64::MAX,
            within == all_within(wanted_messages@.take(i as int), threshold@),
            total == total_wanted(wanted_messages@.take(i as int)),
        decreases wanted_messages@.len() - i,
    {
        let ws = &wanted_messages[i];
        proof {
            assert(wanted_messages@.take(i as int + 1).drop_last() =~= wanted_messages@.take(i as int));
            lemma_total_prefix_bound(wanted_messages@, i as int + 1);
            lemma_all_within_bound(wanted_messages@.take(i as int + 1), threshold@);
        }
        let mut c: u64 = 0;
        let mut j: usize = 0;
        while j < ws.len()
            invariant
                j <= ws@.len(),
                c == count_within(ws@.take(j as int), threshold@),
                c <= j,
            decreases ws@.len() - j,
        {
            assert(ws@.take(j as int + 1).drop_last() =~= ws@.take(j as int));
            match ws[j].latency {
                Some(l) => {
                    if l.micros <= threshold.micros {
                        c = c + 1;
                    }
                },
                None => {},
            }
            j += 1;
        }
        assert(ws@.take(ws@.len() as int) =~= ws@);
        proof {
            lemma_count_within_bound(ws@, threshold@);
        }
        within = within + c;
        total = total + ws.len() as u64;
        i += 1;
    }
    assert(wanted_messages@.take(wanted_messages@.len() as int) =~= wanted_messages@);
    proof {
        lemma_all_within_bound(wanted_messages@, threshold@);
    }
    (within, total)
}

/// Records over a prefix are no more than over the whole.
proof fn lemma_total_prefix_bound(all: Seq<Vec<WantedMessage>>, n: int)
    requires
        0 <= n <= all.len(),
    ensures
        total_wanted(all.take(n)) <= total_wanted(all),
    decreases all.len() - n,
{
    if n < all.len() {
        lemma_total_prefix_bound(all, n + 1);
        assert(all.take(n + 1).drop_last() =~= all.take(n));
    } else {
        assert(all.take(n) =~= all);
    }
}

/// The records of one node: for each message that names it as a target, in
/// message order, whether and how fast it arrived.
pub fn wanted_for_node(recs: &Vec<Reception>, messages: &Vec<ScenarioMessage>, node: usize) -> (r: Vec<
    WantedMessage,
>)
    ensures
        forall|j: int|
            0 <= j < r@.len() ==> {
                let w = #[trigger] r@[j];
                &&& w.message_id < messages@.len()
                &&& messages@[w.message_id as int].targets@.contains(node)
                &&& wanted_spec(recs@, node, w.message_id, messages@[w.message_id as int].generate_time, w)
            },
        forall|i: int|
            0 <= i < messages@.len() && (#[trigger] messages@[i]).targets@.contains(node) ==> exists|j: int|
                0 <= j < r@.len() && r@[j].message_id == i,
{
    let mut out: Vec<WantedMessage> = Vec::new();
    let mut i: usize = 0;
    while i < messages.len()
        invariant
            i <= messages@.len(),
            forall|j: int|
                0 <= j < out@.len() ==> {
                    let w = #[trigger] out@[j];
                    &&& w.message_id < messages@.len()
                    &&& messages@[w.message_id as int].targets@.contains(node)
                    &&& wanted_spec(recs@, node, w.message_id, messages@[w.message_id as int].generate_time, w)
                },
            forall|a: int|
                0 <= a < i && (#[trigger] messages@[a]).targets@.contains(node) ==> exists|j: int|
                    0 <= j < out@.len() && out@[j].message_id == a,
        decreases messages@.len() - i,
    {
        let m = &messages[i];
        let mut k: usize = 0;
        let ghost found = false;
        while k < m.targets.len()
            invariant
                i < messages@.len(),
                m == &messages@[i as int],
                k <= m.targets@.len(),
                forall|j: int|
                    0 <= j < out@.len() ==> {
                        let w = #[trigger] out@[j];
                        &&& w.message_id < messages@.len()
                        &&& messages@[w.message_id as int].targets@.contains(node)
                        &&& wanted_spec(recs@, node, w.message_id, messages@[w.message_id as int].generate_time, w)
                    },
                forall|a: int|
                    0 <= a < i && (#[trigger] messages@[a]).targets@.contains(node) ==> exists|j: int|
                        0 <= j < out@.len() && out@[j].message_id == a,
                (exists|b: int| 0 <= b < k && m.targets@[b] == node) ==> exists|j: int|
                    0 <= j < out@.len() && out@[j].message_id == i,
            decreases m.targets@.len() - k,
        {
            if m.targets[k] == node {
                let w = wanted_message(recs, node, i, m.generate_time);
                let ghost o0 = out@;
                out.push(w);
                assert(out@[out@.len() - 1] == w);
                assert(m.targets@[k as int] == node);
                assert forall|a: int|
                    0 <= a < i && (#[trigger] messages@[a]).targets@.contains(node) implies exists|j: int|
                        0 <= j < out@.len() && out@[j].message_id == a by {
                    let j = choose|j: int| 0 <= j < o0.len() && o0[j].message_id == a;
                    assert(out@[j] == o0[j]);
                }
                assert forall|j: int| 0 <= j < out@.len() implies {
                    let w2 = #[trigger] out@[j];
                    &&& w2.message_id < messages@.len()
                    &&& messages@[w2.message_id as int].targets@.contains(node)
                    &&& wanted_spec(recs@, node, w2.message_id, messages@[w2.message_id as int].generate_time, w2)
                } by {
                    if j < o0.len() {
                        assert(out@[j] == o0[j]);
                    }
                }
            } else {
                assert((exists|b: int| 0 <= b < k + 1 && m.targets@[b] == node) ==> (exists|b: int| 0 <= b < k && m.targets@[b] == node));
            }
            k += 1;
        }
        assert forall|a: int|
            0 <= a < i + 1 && (#[trigger] messages@[a]).targets@.contains(node) implies exists|j: int|
                0 <= j < out@.len() && out@[j].message_id == a by {
            if a == i {
                let b = choose|b: int| 0 <= b < m.targets@.len() && m.targets@[b] == node;
                assert(exists|b2: int| 0 <= b2 < m.targets@.len() && m.targets@[b2] == node);
            }
        }
        i += 1;
    }
    out
}

/// Every node's records, node `n` at index `n`.
pub fn wanted_messages(recs: &Vec<Reception>, messages: &Vec<ScenarioMessage>, node_count: usize) -> (r: Vec<
    Vec<WantedMessage>,
>)
    ensures
        r@.len() == node_count,
        forall|x: int, j: int|
            0 <= x < node_count && 0 <= j < r@[x]@.len() ==> {
                let w = #[trigger] r@[x]@[j];
                &&& w.message_id < messages@.len()
                &&& messages@[w.message_id as int].targets@.contains(x as usize)
                &&& wanted_spec(recs@, x as usize, w.message_id, messages@[w.message_id as int].generate_time, w)
            },
        forall|i: int, x: int|
            0 <= i < messages@.len() && 0 <= x < node_count && #[trigger] messages@[i].targets@.contains(
                x as usize,
            ) ==> exists|j: int| 0 <= j < r@[x]@.len() && r@[x]@[j].message_id == i,
{
    let mut out: Vec<Vec<WantedMessage>> = Vec::new();
    let mut x: usize = 0;
    while x < node_count
        invariant
            x <= node_count,
            out@.len() == x,
            forall|y: int, j: int|
                0 <= y < x && 0 <= j < out@[y]@.len() ==> {
                    let w = #[trigger] out@[y]@[j];
                    &&& w.message_id < messages@.len()
                    &&& messages@[w.message_id as int].targets@.contains(y as usize)
                    &&& wanted_spec(recs@, y as usize, w.message_id, messages@[w.message_id as int].generate_time, w)
                },
            forall|i: int, y: int|
                0 <= i < messages@.len() && 0 <= y < x && #[trigger] messages@[i].targets@.contains(
                    y as usize,
                ) ==> exists|j: int| 0 <= j < out@[y]@.len() && out@[y]@[j].message_id == i,
        decreases node_count - x,
    {
        let v = wanted_for_node(recs, messages, x);
        let ghost o0 = out@;
        out.push(v);
        assert forall|y: int, j: int|
            0 <= y < x + 1 && 0 <= j < out@[y]@.len() implies {
                let w = #[trigger] out@[y]@[j];
                &&& w.message_id < messages@.len()
                &&& messages@[w.message_id as int].targets@.contains(y as usize)
                &&& wanted_spec(recs@, y as usize, w.message_id, messages@[w.message_id as int].generate_time, w)
            } by {
            if y < x {
                assert(out@[y] == o0[y]);
            } else {
                assert(out@[y]@ == v@);
                let w = v@[j];
                assert(w == out@[y]@[j]);
            }
        }
        assert forall|i: int, y: int|
            0 <= i < messages@.len() && 0 <= y < x + 1 && #[trigger] messages@[i].targets@.contains(
                y as usize,
            ) implies exists|j: int| 0 <= j < out@[y]@.len() && out@[y]@[j].message_id == i by {
            if y < x {
                assert(out@[y] == o0[y]);
            } else {
                assert(out@[y]@ == v@);
            }
        }
        x += 1;
    }
    out
}

/// A record's latency held at `penalty`, which a message that never arrived scores.
pub open spec fn capped(w: WantedMessage, penalty: int) -> int {
    match w.latency {
        Some(l) => if l@ < penalty { l@ } else { penalty },
        None => penalty,
    }
}

pub open spec fn capped_sum(ws: Seq<WantedMessage>, penalty: int) -> int
    decreases ws.len(),
{
    if ws.len() == 0 {
        0
    } else {
        capped_sum(ws.drop_last(), penalty) + capped(ws.last(), penalty)
    }
}

/// A node's penalised latency: the mean capped latency of its records,
/// rounded down; nothing for a node without records.
pub open spec fn node_score(ws: Seq<WantedMessage>, penalty: int) -> int {
    if ws.len() == 0 {
        0
    } else {
        capped_sum(ws, penalty) / (ws.len() as int)
    }
}

pub open spec fn score_sum(all: Seq<Vec<WantedMessage>>, penalty: int) -> int
    decreases all.len(),
{
    if all.len() == 0 {
        0
    } else {
        score_sum(all.drop_last(), penalty) + node_score(all.last()@, penalty)
    }
}

proof fn lemma_capped_sum_bound(ws: Seq<WantedMessage>, penalty: int)
    requires
        penalty >= 0,
    ensures
        0 <= capped_sum(ws, penalty) <= ws.len() * penalty,
    decreases ws.len(),
{
    if ws.len() > 0 {
        lemma_capped_sum_bound(ws.drop_last(), penalty);
        assert((ws.len() - 1) * penalty + penalty == ws.len() * penalty) by (nonlinear_arith);
    }
}

proof fn lemma_node_score_bound(ws: Seq<WantedMessage>, penalty: int)
    requires
        penalty >= 0,
    ensures
        0 <= node_score(ws, penalty) <= penalty,
{
    if ws.len() > 0 {
        lemma_capped_sum_bound(ws, penalty);
        let n = ws.len() as int;
        let c = capped_sum(ws, penalty);
        assert(c / n <= penalty) by (nonlinear_arith)
            requires
                0 <= c <= n * penalty,
                n > 0,
        ;
        assert(c / n >= 0) by (nonlinear_arith)
            requires
                0 <= c,
                n > 0,
        ;
    }
}

/// Penalised latency over all nodes: the mean of the nodes' scores, rounded
/// down, where each record counts at most `penalty_time`.
pub fn latency_score(wanted_messages: &Vec<Vec<WantedMessage>>, penalty_time: Time) -> (r: Time)
    requires
        wanted_messages@.len() > 0,
        wanted_messages@.len() <= 0xffff_ffff,
        forall|x: int| 0 <= x < wanted_messages@.len() ==> (#[trigger] wanted_messages@[x])@.len() <= 0xffff_ffff,
        penalty_time@ <= 0xffff_ffff_ffff,
    ensures
        r@ == score_sum(wanted_messages@, penalty_time@) / (wanted_messages@.len() as int),
        r@ <= penalty_time@,
{
    let pen = penalty_time.micros as u128;
    let mut total: u128 = 0;
    let mut x: usize = 0;
    while x < wanted_messages.len()
        invariant
            x <= wanted_messages@.len(),
            wanted_messages@.len() <= 0xffff_ffff,
            forall|y: int| 0 <= y < wanted_messages@.len() ==> (#[trigger] wanted_messages@[y])@.len() <= 0xffff_ffff,
            pen == penalty_time@,
            pen <= 0xffff_ffff_ffff,
            total == score_sum(wanted_messages@.take(x as int), pen as int),
            total <= x * pen,
        decreases wanted_messages@.len() - x,
    {
        let ws = &wanted_messages[x];
        let mut sum: u128 = 0;
        let mut j: usize = 0;
        while j < ws.len()
            invariant
                j <= ws@.len(),
                ws@.len() <= 0xffff_ffff,
                pen <= 0xffff_ffff_ffff,
                sum == capped_sum(ws@.take(j as int), pen as int),
                sum <= j * pen,
            decreases ws@.len() - j,
        {
            assert(ws@.take(j as int + 1).drop_last() =~= ws@.take(j as int));
            let c: u128 = match ws[j].latency {
                Some(l) => if (l.micros as u128) < pen { l.micros as u128 } else { pen },
                None => pen,
            };
            assert(j * pen + pen == (j + 1) * pen) by (nonlinear_arith);
            assert((j + 1) * pen <= 0x1_0000_0000 * 0xffff_ffff_ffff) by (nonlinear_arith)
                requires
                    j + 1 <= 0x1_0000_0000,
                    pen <= 0xffff_ffff_ffff,
            ;
            sum = sum + c;
            j += 1;
        }
        assert(ws@.take(ws@.len() as int) =~= ws@);
        let score: u128 = if ws.len() == 0 { 0 } else { sum / (ws.len() as u128) };
        proof {
            lemma_node_score_bound(ws@, pen as int);
            assert(wanted_messages@.take(x as int + 1).drop_last() =~= wanted_messages@.take(x as int));
            assert(x * pen + pen == (x + 1) * pen) by (nonlinear_arith);
            assert((x + 1) * pen <= 0x1_0000_0000 * 0xffff_ffff_ffff) by (nonlinear_arith)
                requires
                    x + 1 <= 0x1_0000_0000,
                    pen <= 0xffff_ffff_ffff,
            ;
        }
        total = total + score;
        x += 1;
    }
    assert(wanted_messages@.take(wanted_messages@.len() as int) =~= wanted_messages@);
    let n = wanted_messages.len() as u128;
    let r = total / n;
    assert(r <= pen) by (nonlinear_arith)
        requires
            r == total / n,
            total <= n * pen,
            n > 0,
    ;
    Time { micros: r as u64 }
}

/// The receivers, in order, of the receptions of transmission `tid` among `pairs`.
pub open spec fn receivers_of(pairs: Seq<(usize, u32)>, tid: u32) -> Seq<usize>
    decreases pairs.len(),
{
    if pairs.len() == 0 {
        Seq::empty()
    } else {
        let rest = receivers_of(pairs.drop_last(), tid);
        if pairs.last().1 == tid {
            rest.push(pairs.last().0)
        } else {
            rest
        }
    }
}

/// The sender named by the last send of transmission `tid` among `pairs`.
pub open spec fn last_sender(pairs: Seq<(usize, u32)>, tid: u32) -> Option<usize>
    decreases pairs.len(),
{
    if pairs.len() == 0 {
        None
    } else if pairs.last().1 == tid {
        Some(pairs.last().0)
    } else {
        last_sender(pairs.drop_last(), tid)
    }
}

fn find_id(ids: &Vec<u32>, tid: u32) -> (r: Option<usize>)
    ensures
        r is None ==> !ids@.contains(tid),
        r matches Some(k) ==> k < ids@.len() && ids@[k as int] == tid,
{
    let mut k: usize = 0;
    while k < ids.len()
        invariant
            k <= ids@.len(),
            forall|j: int| 0 <= j < k ==> ids@[j] != tid,
        decreases ids@.len() - k,
    {
        if ids[k] == tid {
            return Some(k);
        }
        k += 1;
    }
    None
}

/// The receivers of transmission `tid` that `logs` record, in log order.
pub fn transmission_receivers(logs: &Vec<LogItem>, tid: u32) -> (r: Vec<usize>)
    ensures
        r@ == receivers_of(received_pairs(logs@), tid),
{
    let mut out: Vec<usize> = Vec::new();
    let mut i: usize = 0;
    while i < logs.len()
        invariant
            i <= logs@.len(),
            out@ == receivers_of(received_pairs(logs@.take(i as int)), tid),
        decreases logs@.len() - i,
    {
        proof {
            assert(logs@.take(i as int + 1).drop_last() =~= logs@.take(i as int));
            assert(logs@.take(i as int + 1).last() == logs@[i as int]);
        }
        let ghost pre = received_pairs(logs@.take(i as int));
        let ghost post = received_pairs(logs@.take(i as int + 1));
        match &logs[i].content {
            LogContent::TransmissionReceived { receiver_id, transmission_id } => {
                assert(post == pre.push((*receiver_id, *transmission_id)));
                assert(post.drop_last() =~= pre);
                if *transmission_id == tid {
                    out.push(*receiver_id);
                }
            },
            _ => {
                assert(post == pre);
            },
        }
        i += 1;
    }
    assert(logs@.take(logs@.len() as int) =~= logs@);
    out
}

/// Some graph is of transmission `tid`.
pub open spec fn has_graph(r: Seq<(u32, TransmissionGraph)>, tid: u32) -> bool {
    exists|k: int| 0 <= k < r.len() && r[k].0 == tid
}

/// One graph per transmission that `logs` record as sent, in the order of
/// first sending: its sender (as last recorded) and, in log order, the nodes
/// that read it.
pub fn create_transmission_graphs(sim_events: &Vec<LogItem>) -> (r: Vec<(u32, TransmissionGraph)>)
    ensures
        forall|k: int|
            0 <= k < r@.len() ==> last_sender(sent_pairs(sim_events@), (#[trigger] r@[k]).0) == Some(
                r@[k].1.origin,
            ) && r@[k].1.targets@ == receivers_of(received_pairs(sim_events@), r@[k].0),
        forall|a: int, b: int| 0 <= a < b < r@.len() ==> r@[a].0 != r@[b].0,
        forall|p: int|
            0 <= p < sent_pairs(sim_events@).len() ==> has_graph(r@, (#[trigger] sent_pairs(sim_events@)[p]).1),
{
    let mut ids: Vec<u32> = Vec::new();
    let mut origins: Vec<usize> = Vec::new();
    let mut i: usize = 0;
    while i < sim_events.len()
        invariant
            i <= sim_events@.len(),
            ids@.len() == origins@.len(),
            forall|k: int|
                0 <= k < ids@.len() ==> last_sender(sent_pairs(sim_events@.take(i as int)), #[trigger] ids@[k])
                    == Some(origins@[k]),
            forall|a: int, b: int| 0 <= a < b < ids@.len() ==> ids@[a] != ids@[b],
            forall|p: int|
                0 <= p < sent_pairs(sim_events@.take(i as int)).len() ==> ids@.contains(
                    (#[trigger] sent_pairs(sim_events@.take(i as int))[p]).1,
                ),
        decreases sim_events@.len() - i,
    {
        let ghost pre = sent_pairs(sim_events@.take(i as int));
        let ghost post = sent_pairs(sim_events@.take(i as int + 1));
        proof {
            assert(sim_events@.take(i as int + 1).drop_last() =~= sim_events@.take(i as int));
            assert(sim_events@.take(i as int + 1).last() == sim_events@[i as int]);
        }
        match &sim_events[i].content {
            LogContent::TransmissionSent { sender_id, transmission_id } => {
                assert(post == pre.push((*sender_id, *transmission_id)));
                assert(post.drop_last() =~= pre);
                let ghost ids0 = ids@;
                let ghost origins0 = origins@;
                match find_id(&ids, *transmission_id) {
                    Some(k) => {
                        origins.set(k, *sender_id);
                        assert forall|j: int| 0 <= j < ids@.len() implies last_sender(post, #[trigger] ids@[j]) == Some(origins@[j]) by {
                            if j != k {
                                assert(ids@[j] != *transmission_id);
                                assert(last_sender(pre, ids0[j]) == Some(origins0[j]));
                            }
                        }
                    },
                    None => {
                        ids.push(*transmission_id);
                        origins.push(*sender_id);
                        assert(ids@[ids@.len() - 1] == *transmission_id);
                        assert forall|a: int, b: int| 0 <= a < b < ids@.len() implies ids@[a] != ids@[b] by {
                            if b == ids@.len() - 1 {
                                assert(ids0[a] == ids@[a]);
                                assert(ids0.contains(ids0[a]));
                            }
                        }
                        assert forall|j: int| 0 <= j < ids@.len() implies last_sender(post, #[trigger] ids@[j]) == Some(origins@[j]) by {
                            if j < ids0.len() {
                                assert(ids@[j] == ids0[j]);
                                assert(ids0.contains(ids0[j]));
                                assert(last_sender(pre, ids0[j]) == Some(origins0[j]));
                            }
                        }
                    },
                }
                assert forall|p: int| 0 <= p < post.len() implies ids@.contains((#[trigger] post[p]).1) by {
                    if p < pre.len() {
                        assert(post[p] == pre[p]);
                        let j = choose|j: int| 0 <= j < ids0.len() && ids0[j] == pre[p].1;
                        assert(ids@[j] == ids0[j]);
                    } else {
                        assert(post[p].1 == *transmission_id);
                    }
                }
            },
            _ => {
                assert(post == pre);
            },
        }
        i += 1;
    }
    assert(sim_events@.take(sim_events@.len() as int) =~= sim_events@);
    let mut out: Vec<(u32, TransmissionGraph)> = Vec::new();
    let mut k: usize = 0;
    while k < ids.len()
        invariant
            k <= ids@.len(),
            ids@.len() == origins@.len(),
            out@.len() == k,
            forall|j: int|
                0 <= j < ids@.len() ==> last_sender(sent_pairs(sim_events@), #[trigger] ids@[j]) == Some(origins@[j]),
            forall|j: int|
                0 <= j < k ==> (#[trigger] out@[j]).0 == ids@[j] && out@[j].1.origin == origins@[j]
                    && out@[j].1.targets@ == receivers_of(received_pairs(sim_events@), ids@[j]),
            forall|a: int, b: int| 0 <= a < b < ids@.len() ==> ids@[a] != ids@[b],
            forall|p: int|
                0 <= p < sent_pairs(sim_events@).len() ==> ids@.contains(
                    (#[trigger] sent_pairs(sim_events@)[p]).1,
                ),
        decreases ids@.len() - k,
    {
        let targets = transmission_receivers(sim_events, ids[k]);
        out.push((ids[k], TransmissionGraph { origin: origins[k], targets }));
        k += 1;
    }
    assert forall|p: int| 0 <= p < sent_pairs(sim_events@).len() implies has_graph(out@, (#[trigger] sent_pairs(sim_events@)[p]).1) by {
        assert(ids@.contains(sent_pairs(sim_events@)[p].1));
        let j = choose|j: int| 0 <= j < ids@.len() && ids@[j] == sent_pairs(sim_events@)[p].1;
        assert(out@[j].0 == ids@[j]);
        assert(0 <= j < out@.len() && out@[j].0 == sent_pairs(sim_events@)[p].1);
    }
    out
}

/// Counts behind the uniqueness and directness ratios of a run.
#[derive(Clone, Copy, Debug, PartialEq, Eq, Structural)]
pub struct ReceptionCounts {
    /// Receptions of transmissions carrying a user message.
    pub message_receptions: u64,
    /// Receptions of anything else.
    pub other_receptions: u64,
    /// Receptions of a user message by one of its targets.
    pub direct_receptions: u64,
}

/// The reception is of a user message by one of its targets.
pub open spec fn is_direct(r: Reception, messages: Seq<ScenarioMessage>) -> bool {
    r.transmission.message_content matches MessageContent::GeneratedMessage(m) && m < messages.len()
        && messages[m as int].targets@.contains(r.receiver_id)
}

pub open spec fn count_message_receptions(recs: Seq<Reception>) -> nat
    decreases recs.len(),
{
    if recs.len() == 0 {
        0
    } else {
        count_message_receptions(recs.drop_last()) + if recs.last().transmission.message_content is GeneratedMessage {
            1nat
        } else {
            0nat
        }
    }
}

pub open spec fn count_direct(recs: Seq<Reception>, messages: Seq<ScenarioMessage>) -> nat
    decreases recs.len(),
{
    if recs.len() == 0 {
        0
    } else {
        count_direct(recs.drop_last(), messages) + if is_direct(recs.last(), messages) {
            1nat
        } else {
            0nat
        }
    }
}

fn targets_contain(targets: &Vec<usize>, node: usize) -> (r: bool)
    ensures
        r == targets@.contains(node),
{
    let mut i: usize = 0;
    while i < targets.len()
        invariant
            i <= targets@.len(),
            forall|j: int| 0 <= j < i ==> targets@[j] != node,
        decreases targets@.len() - i,
    {
        if targets[i] == node {
            return true;
        }
        i += 1;
    }
    false
}

/// Counts of a run's receptions: of user messages, of anything else, and of
/// user messages by their targets.
pub fn reception_counts(recs: &Vec<Reception>, messages: &Vec<ScenarioMessage>) -> (r: ReceptionCounts)
    requires
        recs@.len() <= u64::MAX,
    ensures
        r.message_receptions == count_message_receptions(recs@),
        r.other_receptions == recs@.len() - count_message_receptions(recs@),
        r.direct_receptions == count_direct(recs@, messages@),
        r.direct_receptions <= r.message_receptions,
{
    let mut msg: u64 = 0;
    let mut direct: u64 = 0;
    let mut i: usize = 0;
    while i < recs.len()
        invariant
            i <= recs@.len(),
            recs@.len() <= u64::MAX,
            msg == count_message_receptions(recs@.take(i as int)),
            direct == count_direct(recs@.take(i as int), messages@),
            direct <= msg,
            msg <= i,
        decreases recs@.len() - i,
    {
        assert(recs@.take(i as int + 1).drop_last() =~= recs@.take(i as int));
        assert(recs@.take(i as int + 1).last() == recs@[i as int]);
        let rc = &recs[i];
        match rc.transmission.message_content {
            MessageContent::GeneratedMessage(m) => {
                msg = msg + 1;
                if m < messages.len() && targets_contain(&messages[m].targets, rc.receiver_id) {
                    direct = direct + 1;
                }
            },
            _ => {},
        }
        i += 1;
    }
    assert(recs@.take(recs@.len() as int) =~= recs@);
    ReceptionCounts {
        message_receptions: msg,
        other_receptions: recs.len() as u64 - msg,
        direct_receptions: direct,
    }
}

} // verus!
