use vstd::prelude::*;

use crate::em::{
    overlaps_spec, sorted_by_end, well_formed_transmissions, EmField, Transmission,
};
use crate::lora::{
    read_threshold_spec, sir_table, sir_threshold, snr_detect_threshold, snr_read_threshold,
    valid_sf, SNR_MAX_MDB, SNR_MIN_MDB,
};
use crate::settings::CarrierBand;
use crate::units::{Db, Time};
use vstd::arithmetic::div_mod::lemma_mod_bound;

verus! {

/// What a receiver makes of a transmission that ends.
#[derive(Clone, Copy, Debug, PartialEq, Eq, Structural)]
pub enum TransmissionResult {
    /// Read, with the SNR it was read at, held within the range a LoRa radio reports.
    Success { snr: Db },
    /// Below the read threshold for its spreading factor.
    TooWeak,
    /// Lost to another transmission.
    Blocked { blocker_id: u32 },
}

/// `y`, received at `power`, keeps the receiver `at_node` from reading `target`,
/// received at `target_power`: the receiver itself sent `y`, or `y` is in the
/// same band and the target is not strong enough above it to be captured.
pub open spec fn blocks(
    y: Transmission,
    power: int,
    at_node: usize,
    target: Transmission,
    target_power: int,
) -> bool {
    y.id != target.id && (y.transmitter_id == at_node || (y.carrier_band == target.carrier_band
        && target_power - power <= 1000 * sir_table(target.sf - 7, y.sf - 7)))
}

/// The first blocker met walking back from index `n - 1` while transmissions
/// still end at or after the target's start.
pub open spec fn blocker_scan(
    s: Seq<Transmission>,
    powers: Seq<Db>,
    at_node: usize,
    target: Transmission,
    target_power: int,
    n: int,
) -> Option<u32>
    decreases n,
{
    if n <= 0 || s[n - 1].end_time@ < target.start_time@ {
        None
    } else if blocks(s[n - 1], powers[n - 1]@, at_node, target, target_power) {
        Some(s[n - 1].id)
    } else {
        blocker_scan(s, powers, at_node, target, target_power, n - 1)
    }
}

/// `x` held within `SNR_MIN_MDB..=SNR_MAX_MDB`.
pub open spec fn clamp_snr(x: int) -> int {
    if x < SNR_MIN_MDB {
        SNR_MIN_MDB as int
    } else if x > SNR_MAX_MDB {
        SNR_MAX_MDB as int
    } else {
        x
    }
}

/// The reception decision: too weak below the read threshold, else blocked by
/// the most recent blocker, else read.
pub open spec fn reception_spec(
    s: Seq<Transmission>,
    powers: Seq<Db>,
    at_node: usize,
    target: Transmission,
    target_power: int,
    noise: int,
) -> TransmissionResult {
    let snr = target_power - noise;
    if snr < read_threshold_spec(target.sf as int) {
        TransmissionResult::TooWeak
    } else {
        match blocker_scan(s, powers, at_node, target, target_power, s.len() as int) {
            Some(id) => TransmissionResult::Blocked { blocker_id: id },
            None => TransmissionResult::Success { snr: Db { milli_db: clamp_snr(snr) as i64 } },
        }
    }
}

pub open spec fn powers_in_range(powers: Seq<Db>) -> bool {
    forall|i: int| 0 <= i < powers.len() ==> powers[i].in_range()
}

/// Decides whether node `at_node` reads `target`. `target_power` is the
/// target's power at the node, `powers[i]` that of the field's `i`-th
/// transmission, and `noise` the noise power over the target's bandwidth.
pub fn reception_at(
    field: &EmField,
    at_node: usize,
    target: &Transmission,
    target_power: Db,
    powers: &Vec<Db>,
    noise: Db,
) -> (r: TransmissionResult)
    requires
        field.wf(),
        powers@.len() == field@.len(),
        powers_in_range(powers@),
        target_power.in_range(),
        noise.in_range(),
        valid_sf(target.sf as int),
    ensures
        r == reception_spec(field@, powers@, at_node, *target, target_power@, noise@),
{
    let snr = target_power.sub(noise);
    if snr.milli_db < snr_read_threshold(target.sf).milli_db {
        return TransmissionResult::TooWeak;
    }
    assert(!(target_power@ - noise@ < read_threshold_spec(target.sf as int)));
    let mut i: usize = field.transmissions.len();
    while i > 0 && field.transmissions[i - 1].end_time.micros >= target.start_time.micros
        invariant
            i <= field@.len(),
            field.wf(),
            powers@.len() == field@.len(),
            powers_in_range(powers@),
            target_power.in_range(),
            valid_sf(target.sf as int),
            !(target_power@ - noise@ < read_threshold_spec(target.sf as int)),
            blocker_scan(field@, powers@, at_node, *target, target_power@, field@.len() as int)
                == blocker_scan(field@, powers@, at_node, *target, target_power@, i as int),
        decreases i,
    {
        let y = field.transmissions[i - 1];
        if y.id != target.id {
            if y.transmitter_id == at_node {
                assert(blocker_scan(field@, powers@, at_node, *target, target_power@, i as int)
                    == Some(y.id));
                return TransmissionResult::Blocked { blocker_id: y.id };
            }
            if y.carrier_band == target.carrier_band {
                let sir = target_power.sub(powers[i - 1]);
                if sir.milli_db <= sir_threshold(target.sf, y.sf).milli_db {
                    assert(blocker_scan(field@, powers@, at_node, *target, target_power@, i as int)
                        == Some(y.id));
                    return TransmissionResult::Blocked { blocker_id: y.id };
                }
            }
        }
        i -= 1;
    }
    let clamped = snr.clamp(Db { milli_db: SNR_MIN_MDB }, Db { milli_db: SNR_MAX_MDB });
    TransmissionResult::Success { snr: clamped }
}

/// Whether a receiver in band `band` detects `target` received with SNR
/// `target_power − noise`: same band and at least the detection threshold.
pub open spec fn detected_spec(band: CarrierBand, target: Transmission, target_power: int, noise: int) -> bool {
    band == target.carrier_band && target_power - noise >= read_threshold_spec(target.sf as int)
}

/// Detection without decoding, by a receiver tuned to `band`.
pub fn detected_at(band: CarrierBand, target: &Transmission, target_power: Db, noise: Db) -> (r: bool)
    requires
        target_power.in_range(),
        noise.in_range(),
        valid_sf(target.sf as int),
    ensures
        r == detected_spec(band, *target, target_power@, noise@),
{
    if band != target.carrier_band {
        return false;
    }
    let snr = target_power.sub(noise);
    snr.milli_db >= snr_detect_threshold(target.sf).milli_db
}

/// Whether any transmission still on air at `now` is detected, where
/// `detected[i]` says whether the field's `i`-th transmission is.
pub fn detecting_any_at(field: &EmField, now: Time, detected: &Vec<bool>) -> (r: bool)
    requires
        field.wf(),
        detected@.len() == field@.len(),
    ensures
        r == exists|i: int| 0 <= i < field@.len() && field@[i].end_time@ >= now@ && detected@[i],
{
    let mut i: usize = field.transmissions.len();
    while i > 0 && field.transmissions[i - 1].end_time.micros >= now.micros
        invariant
            i <= field@.len(),
            field.wf(),
            detected@.len() == field@.len(),
            forall|j: int| i <= j < field@.len() ==> !detected@[j],
        decreases i,
    {
        if detected[i - 1] {
            return true;
        }
        i -= 1;
    }
    assert forall|j: int| 0 <= j < i implies field@[j].end_time@ < now@ by {
        assert(field@[j].end_time@ <= field@[i - 1].end_time@);
    }
    false
}

/// Walking back from `n - 1` finds a blocker wherever some transmission below
/// `n` that ends at or after the target's start blocks it.
pub proof fn lemma_scan_finds_blocker(
    s: Seq<Transmission>,
    powers: Seq<Db>,
    at_node: usize,
    target: Transmission,
    target_power: int,
    n: int,
    i: int,
)
    requires
        sorted_by_end(s),
        0 <= i < n <= s.len(),
        s[i].end_time@ >= target.start_time@,
        blocks(s[i], powers[i]@, at_node, target, target_power),
    ensures
        blocker_scan(s, powers, at_node, target, target_power, n) is Some,
    decreases n,
{
    if n - 1 > i {
        assert(s[i].end_time@ <= s[n - 1].end_time@);
        if !blocks(s[n - 1], powers[n - 1]@, at_node, target, target_power) {
            lemma_scan_finds_blocker(s, powers, at_node, target, target_power, n - 1, i);
        }
    }
}

/// A node never reads a transmission while it is itself on air: where the
/// decision for `target` at `at_node` is a success, no other transmission of
/// `at_node` in the field overlaps the target.
pub proof fn lemma_no_reception_while_transmitting(
    s: Seq<Transmission>,
    powers: Seq<Db>,
    at_node: usize,
    target: Transmission,
    target_power: int,
    noise: int,
    j: int,
)
    requires
        sorted_by_end(s),
        well_formed_transmissions(s),
        powers.len() == s.len(),
        0 <= j < s.len(),
        s[j].transmitter_id == at_node,
        s[j].id != target.id,
        overlaps_spec(s[j], target),
    ensures
        !(reception_spec(s, powers, at_node, target, target_power, noise) is Success),
{
    assert(blocks(s[j], powers[j]@, at_node, target, target_power));
    lemma_scan_finds_blocker(s, powers, at_node, target, target_power, s.len() as int, j);
}

/// Of two overlapping transmissions in one band at one spreading factor, a
/// receiver reads at most one. `x` is decided against field `fx`, which holds
/// `y` at `iy`; `y` against field `fy`, which holds `x` at `ix`; each
/// transmission's power at the receiver is the same in both decisions.
pub proof fn lemma_no_overlapping_reception(
    fx: Seq<Transmission>,
    px: Seq<Db>,
    fy: Seq<Transmission>,
    py: Seq<Db>,
    at_node: usize,
    x: Transmission,
    y: Transmission,
    iy: int,
    ix: int,
    power_x: int,
    power_y: int,
    noise_x: int,
    noise_y: int,
)
    requires
        sorted_by_end(fx),
        sorted_by_end(fy),
        px.len() == fx.len(),
        py.len() == fy.len(),
        0 <= iy < fx.len(),
        0 <= ix < fy.len(),
        fx[iy] == y,
        fy[ix] == x,
        px[iy]@ == power_y,
        py[ix]@ == power_x,
        x.id != y.id,
        overlaps_spec(x, y),
        x.carrier_band == y.carrier_band,
        x.sf == y.sf,
        valid_sf(x.sf as int),
    ensures
        !(reception_spec(fx, px, at_node, x, power_x, noise_x) is Success && reception_spec(
            fy,
            py,
            at_node,
            y,
            power_y,
            noise_y,
        ) is Success),
{
    let d = sir_table(x.sf - 7, x.sf - 7);
    assert(d == 1) by {
        assert(seq![1int, -8, -9, -9, -9, -9][0] == 1);
        assert(seq![-11int, 1, -11, -12, -13, -13][1] == 1);
        assert(seq![-15int, -13, 1, -13, -14, -15][2] == 1);
        assert(seq![-19int, -18, -17, 1, -17, -18][3] == 1);
        assert(seq![-22int, -22, -21, -20, 1, -20][4] == 1);
        assert(seq![-25int, -25, -25, -24, -23, 1][5] == 1);
    }
    if power_x - power_y <= 1000 {
        assert(blocks(fx[iy], px[iy]@, at_node, x, power_x));
        lemma_scan_finds_blocker(fx, px, at_node, x, power_x, fx.len() as int, iy);
    } else {
        assert(blocks(fy[ix], py[ix]@, at_node, y, power_y));
        lemma_scan_finds_blocker(fy, py, at_node, y, power_y, fy.len() as int, ix);
    }
}

/// Length of one utilisation bucket: ten seconds.
pub const UTIL_PERIOD_MICROS: u64 = 10_000_000;

/// Buckets kept: the current, partly filled one and five full ones.
pub const UTIL_PERIODS: u64 = 6;

/// The window looked back over at `now`: five full buckets and the time spent
/// in the current one.
pub open spec fn look_back_spec(now: int) -> int {
    (UTIL_PERIODS - 1) * UTIL_PERIOD_MICROS + now % (UTIL_PERIOD_MICROS as int)
}

/// Busy time counted walking back from index `n - 1`: each detected
/// transmission that starts before `end_clamp` adds its part between the window's
/// start `limit` and `end_clamp`, and moves `end_clamp` back to its start; the
/// walk stops at a transmission that ended before the window, or once
/// `end_clamp` has passed the window's start.
pub open spec fn busy_scan(
    s: Seq<Transmission>,
    detected: Seq<bool>,
    n: int,
    end_clamp: int,
    limit: int,
) -> int
    decreases n,
{
    if n <= 0 || s[n - 1].end_time@ < limit {
        0
    } else if detected[n - 1] && s[n - 1].start_time@ < end_clamp {
        let x = s[n - 1];
        let hi = if x.end_time@ < end_clamp { x.end_time@ } else { end_clamp };
        let lo = if x.start_time@ > limit { x.start_time@ } else { limit };
        if x.start_time@ < limit {
            hi - lo
        } else {
            hi - lo + busy_scan(s, detected, n - 1, x.start_time@, limit)
        }
    } else {
        busy_scan(s, detected, n - 1, end_clamp, limit)
    }
}

/// How busy the channel looked from one node at `now`: `(busy, look_back)`,
/// the time in the look-back window during which some detected transmission
/// was on air, counted once, and the window's length. `detected[i]` says
/// whether the node detects the field's `i`-th transmission. The busy time
/// never exceeds the window.
pub fn observed_utilisation(field: &EmField, now: Time, detected: &Vec<bool>) -> (r: (u64, u64))
    requires
        field.wf(),
        detected@.len() == field@.len(),
        now@ <= i64::MAX,
    ensures
        r.1 == look_back_spec(now@),
        r.0 == busy_scan(field@, detected@, field@.len() as int, now@, now@ - r.1),
        0 <= r.0 <= r.1,
{
    let look_back: u64 = (UTIL_PERIODS - 1) * UTIL_PERIOD_MICROS + now.micros % UTIL_PERIOD_MICROS;
    let nowi = now.micros as i128;
    let limit: i128 = nowi - look_back as i128;
    let mut end_clamp: i128 = nowi;
    let mut total: i128 = 0;
    let mut i: usize = field.transmissions.len();
    let ghost full = busy_scan(field@, detected@, field@.len() as int, now@, limit as int);
    while i > 0 && field.transmissions[i - 1].end_time.micros as i128 >= limit
        invariant
            i <= field@.len(),
            field.wf(),
            detected@.len() == field@.len(),
            limit == nowi - look_back,
            look_back == look_back_spec(now@),
            full == busy_scan(field@, detected@, field@.len() as int, now@, limit as int),
            nowi == now@,
            limit <= end_clamp <= nowi,
            0 <= total <= nowi - end_clamp,
            total + busy_scan(field@, detected@, i as int, end_clamp as int, limit as int) == full,
        decreases i,
    {
        let x = field.transmissions[i - 1];
        if detected[i - 1] && (x.start_time.micros as i128) < end_clamp {
            let xe = x.end_time.micros as i128;
            let xs = x.start_time.micros as i128;
            let hi = if xe < end_clamp { xe } else { end_clamp };
            let lo = if xs > limit { xs } else { limit };
            total = total + (hi - lo);
            end_clamp = xs;
            if end_clamp < limit {
                return (total as u64, look_back);
            }
        }
        i -= 1;
    }
    (total as u64, look_back)
}

} // verus!
