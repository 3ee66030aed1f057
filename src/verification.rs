use vstd::prelude::*;

use crate::analysis::Reception;
use crate::em::{no_self_overlap, overlaps_spec, EmField, Transmission};

verus! {

/// No two receptions at one node are of distinct transmissions that overlap.
pub open spec fn no_overlapping_reception_spec(recs: Seq<Reception>) -> bool {
    forall|a: int, b: int|
        0 <= a < recs.len() && 0 <= b < recs.len() && recs[a].receiver_id == recs[b].receiver_id
            && recs[a].transmission.id != recs[b].transmission.id ==> !overlaps_spec(
            recs[a].transmission,
            recs[b].transmission,
        )
}

/// No node read a transmission that overlaps one of its own.
pub open spec fn no_transmit_while_receiving_spec(s: Seq<Transmission>, recs: Seq<Reception>) -> bool {
    forall|i: int, k: int|
        0 <= i < s.len() && 0 <= k < recs.len() && s[i].transmitter_id == recs[k].receiver_id
            && s[i].id != recs[k].transmission.id ==> !overlaps_spec(s[i], recs[k].transmission)
}

/// Distinct transmissions by one transmitter never overlap.
pub open spec fn no_overlapping_transmission_spec(s: Seq<Transmission>) -> bool {
    forall|i: int, j: int|
        0 <= i < s.len() && 0 <= j < s.len() && s[i].id != s[j].id && s[i].transmitter_id
            == s[j].transmitter_id ==> !overlaps_spec(s[i], s[j])
}

/// No node made two transmissions at once.
pub fn no_overlapping_transmission(field: &EmField) -> (r: bool)
    ensures
        r == no_overlapping_transmission_spec(field@),
{
    let n = field.transmissions.len();
    let mut i: usize = 0;
    while i < n
        invariant
            n == field@.len(),
            i <= n,
            forall|a: int, b: int|
                0 <= a < i && 0 <= b < n && field@[a].id != field@[b].id && field@[a].transmitter_id
                    == field@[b].transmitter_id ==> !overlaps_spec(field@[a], field@[b]),
        decreases n - i,
    {
        let mut j: usize = 0;
        while j < n
            invariant
                n == field@.len(),
                i < n,
                j <= n,
                forall|a: int, b: int|
                    0 <= a < i && 0 <= b < n && field@[a].id != field@[b].id
                        && field@[a].transmitter_id == field@[b].transmitter_id ==> !overlaps_spec(
                        field@[a],
                        field@[b],
                    ),
                forall|b: int|
                    0 <= b < j && field@[i as int].id != field@[b].id && field@[i as int].transmitter_id
                        == field@[b].transmitter_id ==> !overlaps_spec(field@[i as int], field@[b]),
            decreases n - j,
        {
            let ta = &field.transmissions[i];
            let tb = &field.transmissions[j];
            if ta.id != tb.id && ta.transmitter_id == tb.transmitter_id && ta.overlaps(tb) {
                return false;
            }
            j += 1;
        }
        i += 1;
    }
    true
}

/// No node read two transmissions at once.
pub fn no_overlapping_reception(recs: &Vec<Reception>) -> (r: bool)
    ensures
        r == no_overlapping_reception_spec(recs@),
{
    let n = recs.len();
    let mut i: usize = 0;
    while i < n
        invariant
            n == recs@.len(),
            i <= n,
            forall|a: int, b: int|
                0 <= a < i && 0 <= b < n && recs@[a].receiver_id == recs@[b].receiver_id
                    && recs@[a].transmission.id != recs@[b].transmission.id ==> !overlaps_spec(
                    recs@[a].transmission,
                    recs@[b].transmission,
                ),
        decreases n - i,
    {
        let mut j: usize = 0;
        while j < n
            invariant
                n == recs@.len(),
                i < n,
                j <= n,
                forall|a: int, b: int|
                    0 <= a < i && 0 <= b < n && recs@[a].receiver_id == recs@[b].receiver_id
                        && recs@[a].transmission.id != recs@[b].transmission.id ==> !overlaps_spec(
                        recs@[a].transmission,
                        recs@[b].transmission,
                    ),
                forall|b: int|
                    0 <= b < j && recs@[i as int].receiver_id == recs@[b].receiver_id
                        && recs@[i as int].transmission.id != recs@[b].transmission.id
                        ==> !overlaps_spec(recs@[i as int].transmission, recs@[b].transmission),
            decreases n - j,
        {
            let ra = &recs[i];
            let rb = &recs[j];
            if ra.receiver_id == rb.receiver_id && ra.transmission.id != rb.transmission.id
                && ra.transmission.overlaps(&rb.transmission) {
                return false;
            }
            j += 1;
        }
        i += 1;
    }
    true
}

/// No node read a transmission while it was itself transmitting.
pub fn no_transmission_and_reception_at_same_time(field: &EmField, recs: &Vec<Reception>) -> (r:
    bool)
    ensures
        r == no_transmit_while_receiving_spec(field@, recs@),
{
    let n = field.transmissions.len();
    let m = recs.len();
    let mut i: usize = 0;
    while i < n
        invariant
            n == field@.len(),
            m == recs@.len(),
            i <= n,
            forall|a: int, k: int|
                0 <= a < i && 0 <= k < m && field@[a].transmitter_id == recs@[k].receiver_id
                    && field@[a].id != recs@[k].transmission.id ==> !overlaps_spec(
                    field@[a],
                    recs@[k].transmission,
                ),
        decreases n - i,
    {
        let mut k: usize = 0;
        while k < m
            invariant
                n == field@.len(),
                m == recs@.len(),
                i < n,
                k <= m,
                forall|a: int, c: int|
                    0 <= a < i && 0 <= c < m && field@[a].transmitter_id == recs@[c].receiver_id
                        && field@[a].id != recs@[c].transmission.id ==> !overlaps_spec(
                        field@[a],
                        recs@[c].transmission,
                    ),
                forall|c: int|
                    0 <= c < k && field@[i as int].transmitter_id == recs@[c].receiver_id
                        && field@[i as int].id != recs@[c].transmission.id ==> !overlaps_spec(
                        field@[i as int],
                        recs@[c].transmission,
                    ),
            decreases m - k,
        {
            let t = &field.transmissions[i];
            let rc = &recs[k];
            if t.transmitter_id == rc.receiver_id && t.id != rc.transmission.id && t.overlaps(
                &rc.transmission,
            ) {
                return false;
            }
            k += 1;
        }
        i += 1;
    }
    true
}

/// All three checks on a run's transmissions and receptions.
pub fn verify_all(field: &EmField, recs: &Vec<Reception>) -> (r: bool)
    ensures
        r == (no_overlapping_transmission_spec(field@) && no_overlapping_reception_spec(recs@)
            && no_transmit_while_receiving_spec(field@, recs@)),
{
    no_overlapping_transmission(field) && no_overlapping_reception(recs)
        && no_transmission_and_reception_at_same_time(field, recs)
}

/// A field in which no transmitter overlaps itself, as every simulation state
/// keeps it, passes the transmission check.
pub proof fn lemma_self_overlap_free_passes(s: Seq<Transmission>)
    requires
        no_self_overlap(s),
    ensures
        no_overlapping_transmission_spec(s),
{
    assert forall|i: int, j: int|
        0 <= i < s.len() && 0 <= j < s.len() && s[i].id != s[j].id && s[i].transmitter_id
            == s[j].transmitter_id implies !overlaps_spec(s[i], s[j]) by {
        assert(i != j);
    }
}

} // verus!
