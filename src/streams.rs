use vstd::prelude::*;
use vstd::multiset::Multiset;

use crate::analysis::{LogContent, LogItem, LogSource};
use crate::em::Transmission;

verus! {

broadcast use vstd::seq_lib::group_to_multiset_ensures;

/// Log entries in order of time.
pub open spec fn logs_sorted(s: Seq<LogItem>) -> bool {
    forall|i: int, j: int| 0 <= i < j < s.len() ==> s[i].time@ <= s[j].time@
}

/// Transmissions in order of start time.
pub open spec fn starts_sorted(s: Seq<Transmission>) -> bool {
    forall|i: int, j: int| 0 <= i < j < s.len() ==> s[i].start_time@ <= s[j].start_time@
}

/// The entries of every stream together.
pub open spec fn all_entries(streams: Seq<Vec<LogItem>>) -> Multiset<LogItem>
    decreases streams.len(),
{
    if streams.len() == 0 {
        Multiset::empty()
    } else {
        all_entries(streams.drop_last()).add(streams.last()@.to_multiset())
    }
}

/// Entries of one kind among `s`.
pub open spec fn count_kind(s: Seq<LogItem>, kind: int) -> nat
    decreases s.len(),
{
    if s.len() == 0 {
        0
    } else {
        count_kind(s.drop_last(), kind) + if kind_of(s.last().content) == kind {
            1nat
        } else {
            0nat
        }
    }
}

/// 1 for a send, 2 for a reception, 3 for a block, 0 for text.
pub open spec fn kind_of(c: LogContent) -> int {
    match c {
        LogContent::Text(_) => 0,
        LogContent::TransmissionSent { .. } => 1,
        LogContent::TransmissionReceived { .. } => 2,
        LogContent::TransmissionBlocked { .. } => 3,
    }
}

/// A run's log, split by who wrote it, each part in order of time, with the
/// counts of sends, receptions and blocks among the simulation's entries.
pub struct LogStreams {
    pub sim_events: Vec<LogItem>,
    /// Index `n` holds node `n`'s entries.
    pub node_events: Vec<Vec<LogItem>>,
    pub sent: u64,
    pub received: u64,
    pub blocked: u64,
}

/// Splits `v` into the entries written by `src` and the rest.
fn take_source(v: Vec<LogItem>, src: LogSource) -> (r: (Vec<LogItem>, Vec<LogItem>))
    ensures
        r.0@.to_multiset().add(r.1@.to_multiset()) == v@.to_multiset(),
        forall|i: int| 0 <= i < r.0@.len() ==> (#[trigger] r.0@[i]).source == src,
        forall|i: int| 0 <= i < r.1@.len() ==> (#[trigger] r.1@[i]).source != src,
{
    let mut v = v;
    let mut mine: Vec<LogItem> = Vec::new();
    let mut rest: Vec<LogItem> = Vec::new();
    let ghost all = v@.to_multiset();
    while v.len() > 0
        invariant
            v@.to_multiset().add(mine@.to_multiset()).add(rest@.to_multiset()) == all,
            forall|i: int| 0 <= i < mine@.len() ==> (#[trigger] mine@[i]).source == src,
            forall|i: int| 0 <= i < rest@.len() ==> (#[trigger] rest@[i]).source != src,
        decreases v@.len(),
    {
        let ghost v0 = v@;
        let x = v.pop().unwrap();
        assert(v0 =~= v@.push(x));
        if x.source == src {
            mine.push(x);
        } else {
            rest.push(x);
        }
    }
    assert(v@.to_multiset() =~= Multiset::empty());
    (mine, rest)
}

/// `v` in order of time: repeatedly the first of the earliest entries left.
pub fn sort_logs_by_time(v: Vec<LogItem>) -> (r: Vec<LogItem>)
    ensures
        logs_sorted(r@),
        r@.to_multiset() == v@.to_multiset(),
{
    let mut rest = v;
    let mut out: Vec<LogItem> = Vec::new();
    let ghost all = rest@.to_multiset();
    while rest.len() > 0
        invariant
            out@.to_multiset().add(rest@.to_multiset()) == all,
            logs_sorted(out@),
            forall|i: int, j: int| 0 <= i < out@.len() && 0 <= j < rest@.len() ==> out@[i].time@ <= rest@[j].time@,
        decreases rest@.len(),
    {
        let mut k: usize = 0;
        let mut i: usize = 1;
        while i < rest.len()
            invariant
                0 <= k < i <= rest@.len(),
                forall|j: int| 0 <= j < i ==> rest@[k as int].time@ <= rest@[j].time@,
            decreases rest@.len() - i,
        {
            if rest[i].time.micros < rest[k].time.micros {
                k = i;
            }
            i += 1;
        }
        let ghost r0 = rest@;
        let x = rest.remove(k);
        assert(r0.remove(k as int) == rest@);
        let ghost o0 = out@;
        out.push(x);
        assert forall|a: int, b: int| 0 <= a < out@.len() && 0 <= b < rest@.len() implies out@[a].time@ <= rest@[b].time@ by {
            if a < o0.len() {
                assert(rest@[b] == r0[if b < k { b } else { b + 1 }]);
            } else {
                assert(rest@[b] == r0[if b < k { b } else { b + 1 }]);
            }
        }
        assert forall|a: int, b: int| 0 <= a < b < out@.len() implies out@[a].time@ <= out@[b].time@ by {
            if b == o0.len() {
                assert(x == r0[k as int]);
            }
        }
    }
    assert(rest@.to_multiset() =~= Multiset::empty());
    out
}

/// `v` in order of start time: repeatedly the first of the earliest left.
pub fn sort_by_start(v: Vec<Transmission>) -> (r: Vec<Transmission>)
    ensures
        starts_sorted(r@),
        r@.to_multiset() == v@.to_multiset(),
{
    let mut rest = v;
    let mut out: Vec<Transmission> = Vec::new();
    let ghost all = rest@.to_multiset();
    while rest.len() > 0
        invariant
            out@.to_multiset().add(rest@.to_multiset()) == all,
            starts_sorted(out@),
            forall|i: int, j: int| 0 <= i < out@.len() && 0 <= j < rest@.len() ==> out@[i].start_time@ <= rest@[j].start_time@,
        decreases rest@.len(),
    {
        let mut k: usize = 0;
        let mut i: usize = 1;
        while i < rest.len()
            invariant
                0 <= k < i <= rest@.len(),
                forall|j: int| 0 <= j < i ==> rest@[k as int].start_time@ <= rest@[j].start_time@,
            decreases rest@.len() - i,
        {
            if rest[i].start_time.micros < rest[k].start_time.micros {
                k = i;
            }
            i += 1;
        }
        let ghost r0 = rest@;
        let x = rest.remove(k);
        assert(r0.remove(k as int) == rest@);
        let ghost o0 = out@;
        out.push(x);
        assert forall|a: int, b: int| 0 <= a < out@.len() && 0 <= b < rest@.len() implies out@[a].start_time@ <= rest@[b].start_time@ by {
            assert(rest@[b] == r0[if b < k { b } else { b + 1 }]);
        }
        assert forall|a: int, b: int| 0 <= a < b < out@.len() implies out@[a].start_time@ <= out@[b].start_time@ by {
            if b == o0.len() {
                assert(x == r0[k as int]);
            }
        }
    }
    assert(rest@.to_multiset() =~= Multiset::empty());
    out
}

/// How many entries of `s` are of `kind` (see `kind_of`).
fn count_of(s: &Vec<LogItem>, kind: u8) -> (r: u64)
    requires
        s@.len() <= u64::MAX,
    ensures
        r == count_kind(s@, kind as int),
{
    let mut c: u64 = 0;
    let mut i: usize = 0;
    while i < s.len()
        invariant
            i <= s@.len(),
            s@.len() <= u64::MAX,
            c == count_kind(s@.take(i as int), kind as int),
            c <= i,
        decreases s@.len() - i,
    {
        assert(s@.take(i as int + 1).drop_last() =~= s@.take(i as int));
        assert(s@.take(i as int + 1).last() == s@[i as int]);
        let k: u8 = match &s[i].content {
            LogContent::Text(_) => 0,
            LogContent::TransmissionSent { .. } => 1,
            LogContent::TransmissionReceived { .. } => 2,
            LogContent::TransmissionBlocked { .. } => 3,
        };
        if k == kind {
            c = c + 1;
        }
        i += 1;
    }
    assert(s@.take(s@.len() as int) =~= s@);
    c
}

/// Splits a run's log into the simulation's entries and each node's, each
/// in order of time, and counts the simulation's sends, receptions and blocks.
pub fn split_logs(logs: Vec<LogItem>, node_count: usize) -> (r: LogStreams)
    requires
        forall|i: int|
            0 <= i < logs@.len() ==> ((#[trigger] logs@[i]).source matches LogSource::Node(n) ==> n < node_count),
        logs@.len() <= u64::MAX,
    ensures
        r.node_events@.len() == node_count,
        logs_sorted(r.sim_events@),
        forall|i: int| 0 <= i < r.sim_events@.len() ==> (#[trigger] r.sim_events@[i]).source == LogSource::Simulation,
        forall|n: int|
            0 <= n < node_count ==> logs_sorted(#[trigger] r.node_events@[n]@) && forall|i: int|
                0 <= i < r.node_events@[n]@.len() ==> r.node_events@[n]@[i].source == LogSource::Node(n as usize),
        logs@.to_multiset() == r.sim_events@.to_multiset().add(all_entries(r.node_events@)),
        r.sent == count_kind(r.sim_events@, 1),
        r.received == count_kind(r.sim_events@, 2),
        r.blocked == count_kind(r.sim_events@, 3),
{
    let ghost all = logs@.to_multiset();
    let (sim, mut rest) = take_source(logs, LogSource::Simulation);
    let ghost sim0 = sim@;
    let sim_sorted = sort_logs_by_time(sim);
    assert forall|i: int| 0 <= i < sim_sorted@.len() implies (#[trigger] sim_sorted@[i]).source == LogSource::Simulation by {
        assert(sim_sorted@.to_multiset().count(sim_sorted@[i]) > 0);
        assert(sim0.contains(sim_sorted@[i]));
    }
    let mut nodes: Vec<Vec<LogItem>> = Vec::new();
    let mut n: usize = 0;
    while n < node_count
        invariant
            n <= node_count,
            nodes@.len() == n,
            all == sim_sorted@.to_multiset().add(all_entries(nodes@)).add(rest@.to_multiset()),
            forall|m: int|
                0 <= m < n ==> logs_sorted(#[trigger] nodes@[m]@) && forall|i: int|
                    0 <= i < nodes@[m]@.len() ==> nodes@[m]@[i].source == LogSource::Node(m as usize),
            forall|i: int|
                0 <= i < rest@.len() ==> (#[trigger] rest@[i]).source != LogSource::Simulation && (rest@[i].source matches LogSource::Node(m) ==> m >= n),
        decreases node_count - n,
    {
        let ghost rest0 = rest@;
        let (mine, others) = take_source(rest, LogSource::Node(n));
        let ghost mine0 = mine@;
        let sorted = sort_logs_by_time(mine);
        proof {
            assert forall|i: int| 0 <= i < sorted@.len() implies sorted@[i].source == LogSource::Node(n) by {
                assert(sorted@.to_multiset().count(sorted@[i]) > 0);
                assert(mine0.contains(sorted@[i]));
            }
            assert forall|i: int| 0 <= i < others@.len() implies (#[trigger] others@[i]).source != LogSource::Simulation
                && (others@[i].source matches LogSource::Node(m) ==> m >= n + 1) by {
                assert(others@.to_multiset().count(others@[i]) > 0);
                assert(rest0.to_multiset().count(others@[i]) > 0);
                assert(rest0.contains(others@[i]));
            }
        }
        let ghost n0 = nodes@;
        nodes.push(sorted);
        assert(nodes@.drop_last() == n0);
        assert(all_entries(nodes@) == all_entries(n0).add(sorted@.to_multiset()));
        rest = others;
        n += 1;
    }
    proof {
        if rest@.len() > 0 {
            let x = rest@[0];
            assert(rest@.to_multiset().count(x) > 0);
            assert(all.count(x) > 0);
            assert(logs@.contains(x));
        }
        assert(rest@.to_multiset() =~= Multiset::empty());
    }
    assert(all.len() == logs@.len());
    assert(sim_sorted@.len() <= logs@.len());
    let sent = count_of(&sim_sorted, 1);
    let received = count_of(&sim_sorted, 2);
    let blocked = count_of(&sim_sorted, 3);
    LogStreams { sim_events: sim_sorted, node_events: nodes, sent, received, blocked }
}

} // verus!
