use vstd::prelude::*;

use crate::lora::{air_time_micros, calculate_air_time, valid_sf};
use crate::node::{Header, MessageContent, NodeError, HEADER_SIZE};
use crate::settings::NodeSettings;
use crate::settings::CarrierBand;
use crate::units::{Db, Frequency, Time};

verus! {

/// One packet on air: who sent it, when, with which physical parameters, and
/// what it carries.
#[derive(Clone, Copy, Debug, PartialEq, Eq, Structural)]
pub struct Transmission {
    pub id: u32,
    pub transmitter_id: usize,
    pub start_time: Time,
    pub end_time: Time,
    pub sf: i32,
    pub power: Db,
    pub carrier_band: CarrierBand,
    pub bandwidth: Frequency,
    pub header: Header,
    pub message_content: MessageContent,
}

/// The two transmissions share some instant.
pub open spec fn overlaps_spec(a: Transmission, b: Transmission) -> bool {
    a.start_time@ < b.end_time@ && b.start_time@ < a.end_time@
}

impl Transmission {
    /// Time on air.
    pub fn airtime(&self) -> (r: Time)
        requires
            self.start_time@ <= self.end_time@,
        ensures
            r@ == self.end_time@ - self.start_time@,
    {
        Time { micros: self.end_time.micros - self.start_time.micros }
    }

    pub fn overlaps(&self, other: &Transmission) -> (r: bool)
        ensures
            r == overlaps_spec(*self, *other),
    {
        self.start_time.micros < other.end_time.micros && other.start_time.micros
            < self.end_time.micros
    }
}

/// Ordered by end time, earliest first.
pub open spec fn sorted_by_end(s: Seq<Transmission>) -> bool {
    forall|i: int, j: int| 0 <= i < j < s.len() ==> s[i].end_time@ <= s[j].end_time@
}

/// Every transmission lasts a while and uses a spreading factor of 7 to 12.
pub open spec fn well_formed_transmissions(s: Seq<Transmission>) -> bool {
    forall|i: int|
        0 <= i < s.len() ==> s[i].start_time@ < s[i].end_time@ && valid_sf(s[i].sf as int)
}

/// No transmitter has two transmissions that share an instant.
pub open spec fn no_self_overlap(s: Seq<Transmission>) -> bool {
    forall|i: int, j: int|
        0 <= i < s.len() && 0 <= j < s.len() && i != j && s[i].transmitter_id
            == s[j].transmitter_id ==> !overlaps_spec(s[i], s[j])
}

/// No transmission started after `now`.
pub open spec fn started_by(s: Seq<Transmission>, now: int) -> bool {
    forall|i: int| 0 <= i < s.len() ==> s[i].start_time@ <= now
}

/// Where `t` goes: after the last transmission that ends strictly before it.
pub open spec fn insert_position_ok(s: Seq<Transmission>, t: Transmission, p: int) -> bool {
    &&& 0 <= p <= s.len()
    &&& (p == 0 || s[p - 1].end_time@ < t.end_time@)
    &&& forall|i: int| p <= i < s.len() ==> s[i].end_time@ >= t.end_time@
}

/// The simulator's record of every transmission, in flight or finished.
pub struct EmField {
    pub transmissions: Vec<Transmission>,
}

impl EmField {
    pub open spec fn view(&self) -> Seq<Transmission> {
        self.transmissions@
    }

    pub open spec fn wf(&self) -> bool {
        sorted_by_end(self@) && well_formed_transmissions(self@)
    }

    pub fn new() -> (r: EmField)
        ensures
            r@.len() == 0,
            r.wf(),
    {
        EmField { transmissions: Vec::new() }
    }

    pub fn len(&self) -> (r: usize)
        ensures
            r == self@.len(),
    {
        self.transmissions.len()
    }

    /// Inserts `transmission` after the last transmission that ends strictly
    /// before it, so the field stays ordered by end time.
    pub fn insert_transmission(&mut self, transmission: Transmission)
        ensures
            exists|p: int|
                insert_position_ok(old(self)@, transmission, p) && final(self)@ == old(self)@.insert(p, transmission),
            sorted_by_end(old(self)@) ==> sorted_by_end(final(self)@),
    {
        let mut i: usize = self.transmissions.len();
        while i > 0 && self.transmissions[i - 1].end_time.micros
            >= transmission.end_time.micros
            invariant
                i <= self@.len(),
                *self == *old(self),
                forall|k: int| i <= k < self@.len() ==> self@[k].end_time@ >= transmission.end_time@,
            decreases i,
        {
            i -= 1;
        }
        proof {
            let s = self@;
            let f = s.insert(i as int, transmission);
            if sorted_by_end(s) {
                assert forall|a: int, b: int| 0 <= a < b < f.len() implies f[a].end_time@
                    <= f[b].end_time@ by {
                    if b < i {
                    } else if b == i {
                        assert(a == i - 1 || s[a].end_time@ <= s[i - 1].end_time@);
                    } else if a < i {
                        assert(s[a].end_time@ <= s[b - 1].end_time@);
                    } else if a == i {
                    } else {
                    }
                }
            }
        }
        self.transmissions.insert(i, transmission);
        assert(insert_position_ok(old(self)@, transmission, i as int));
    }

    /// The most recent transmission with id `id`.
    pub fn find_transmission(&self, id: u32) -> (r: Option<Transmission>)
        ensures
            r is None <==> forall|i: int| 0 <= i < self@.len() ==> self@[i].id != id,
            r matches Some(t) ==> exists|i: int|
                0 <= i < self@.len() && self@[i] == t && t.id == id && forall|j: int|
                    i < j < self@.len() ==> self@[j].id != id,
    {
        let mut i: usize = self.transmissions.len();
        while i > 0
            invariant
                i <= self@.len(),
                forall|j: int| i <= j < self@.len() ==> self@[j].id != id,
            decreases i,
        {
            if self.transmissions[i - 1].id == id {
                return Some(self.transmissions[i - 1]);
            }
            i -= 1;
        }
        None
    }

    /// Starts a transmission by `sender_id` at `now` carrying a body of
    /// `message_size` bytes, or refuses with a busy radio while the sender is
    /// still transmitting. The transmission lasts the air time of the body and
    /// header, with the sender's present settings.
    pub fn try_broadcast(
        &mut self,
        now: Time,
        transmission_id: u32,
        sender_id: usize,
        settings: &NodeSettings,
        header: Header,
        message_content: MessageContent,
        message_size: i32,
    ) -> (r: Result<Transmission, NodeError>)
        requires
            old(self).wf(),
            started_by(old(self)@, now@),
            valid_sf(settings.sf as int),
            settings.coding_rate >= 4,
            settings.bandwidth@ >= 1,
            0 <= message_size <= i32::MAX - HEADER_SIZE,
            1 <= air_time_micros(
                message_size + HEADER_SIZE,
                settings.sf as int,
                settings.coding_rate as int,
                settings.bandwidth@,
            ),
            now@ + air_time_micros(
                message_size + HEADER_SIZE,
                settings.sf as int,
                settings.coding_rate as int,
                settings.bandwidth@,
            ) <= u64::MAX,
        ensures
            final(self).wf(),
            started_by(final(self)@, now@),
            (exists|i: int|
                0 <= i < old(self)@.len() && old(self)@[i].end_time@ >= now@
                    && old(self)@[i].transmitter_id == sender_id) ==> r == Err::<
                Transmission,
                NodeError,
            >(NodeError::RadioBusyError(header, message_content)) && final(self)@ == old(self)@,
            r matches Ok(t) ==> {
                &&& t == (Transmission {
                    id: transmission_id,
                    transmitter_id: sender_id,
                    start_time: now,
                    end_time: Time {
                        micros: (now@ + air_time_micros(
                            message_size + HEADER_SIZE,
                            settings.sf as int,
                            settings.coding_rate as int,
                            settings.bandwidth@,
                        )) as u64,
                    },
                    sf: settings.sf,
                    power: settings.use_power,
                    carrier_band: settings.carrier_band,
                    bandwidth: settings.bandwidth,
                    header,
                    message_content,
                })
                &&& exists|p: int|
                    insert_position_ok(old(self)@, t, p) && final(self)@ == old(self)@.insert(p, t)
            },
            r is Err ==> final(self)@ == old(self)@ && exists|i: int|
                0 <= i < old(self)@.len() && old(self)@[i].end_time@ >= now@
                    && old(self)@[i].transmitter_id == sender_id,
            no_self_overlap(old(self)@) ==> no_self_overlap(final(self)@),
    {
        if self.is_transmitting(sender_id, now) {
            return Err(NodeError::RadioBusyError(header, message_content));
        }
        let airtime = calculate_air_time(message_size + HEADER_SIZE, settings);
        let t = Transmission {
            id: transmission_id,
            transmitter_id: sender_id,
            start_time: now,
            end_time: Time { micros: now.micros + airtime.micros },
            sf: settings.sf,
            power: settings.use_power,
            carrier_band: settings.carrier_band,
            bandwidth: settings.bandwidth,
            header,
            message_content,
        };
        let ghost s = self@;
        self.insert_transmission(t);
        proof {
            let p = choose|p: int| insert_position_ok(s, t, p) && self@ == s.insert(p, t);
            let f = self@;
            assert forall|k: int| 0 <= k < f.len() implies f[k] == t || (exists|m: int|
                0 <= m < s.len() && f[k] == s[m]) by {
                if k < p {
                    assert(f[k] == s[k]);
                } else if k > p {
                    assert(f[k] == s[k - 1]);
                }
            }
            assert forall|k: int| 0 <= k < f.len() implies f[k].start_time@ < f[k].end_time@
                && valid_sf(f[k].sf as int) && f[k].start_time@ <= now@ by {
                if f[k] != t {
                    let m = choose|m: int| 0 <= m < s.len() && f[k] == s[m];
                }
            }
            if no_self_overlap(s) {
                assert forall|a: int, b: int|
                    0 <= a < f.len() && 0 <= b < f.len() && a != b && f[a].transmitter_id
                        == f[b].transmitter_id implies !overlaps_spec(f[a], f[b]) by {
                    if a != p && b != p {
                        let ma = if a < p { a } else { a - 1 };
                        let mb = if b < p { b } else { b - 1 };
                        assert(f[a] == s[ma]);
                        assert(f[b] == s[mb]);
                    } else if a == p {
                        let mb = if b < p { b } else { b - 1 };
                        assert(f[b] == s[mb]);
                        assert(s[mb].end_time@ < now@);
                    } else {
                        let ma = if a < p { a } else { a - 1 };
                        assert(f[a] == s[ma]);
                        assert(s[ma].end_time@ < now@);
                    }
                }
            }
        }
        Ok(t)
    }

    /// Whether `node_id` has a transmission that has not ended before `now`.
    pub fn is_transmitting(&self, node_id: usize, now: Time) -> (r: bool)
        requires
            self.wf(),
        ensures
            r == exists|i: int|
                0 <= i < self@.len() && self@[i].end_time@ >= now@ && self@[i].transmitter_id
                    == node_id,
    {
        let mut i: usize = self.transmissions.len();
        while i > 0 && self.transmissions[i - 1].end_time.micros >= now.micros
            invariant
                i <= self@.len(),
                self.wf(),
                forall|j: int| i <= j < self@.len() ==> self@[j].end_time@ >= now@,
                forall|j: int| i <= j < self@.len() ==> self@[j].transmitter_id != node_id,
            decreases i,
        {
            if self.transmissions[i - 1].transmitter_id == node_id {
                return true;
            }
            i -= 1;
        }
        assert forall|j: int| 0 <= j < i implies self@[j].end_time@ < now@ by {
            assert(self@[j].end_time@ <= self@[i - 1].end_time@);
        }
        false
    }
}

} // verus!
