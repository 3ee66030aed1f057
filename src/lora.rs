use vstd::prelude::*;
use vstd::arithmetic::power2::{lemma2_to64, pow2};

use crate::units::{Db, Frequency, Time};
use crate::settings::NodeSettings;

verus! {

/// Lowest signal-to-noise ratio a LoRa receiver reports, in milli-decibels.
pub const SNR_MIN_MDB: i64 = -15_000;

/// Highest signal-to-noise ratio a LoRa receiver reports, in milli-decibels.
pub const SNR_MAX_MDB: i64 = 20_000;

/// The SNR below which a packet at spreading factor `sf` cannot be read: `-2.5 * sf + 10` dB.
pub open spec fn read_threshold_spec(sf: int) -> int {
    -2500 * sf + 10_000
}

/// Minimum SNR for demodulating a packet sent at spreading factor `sf`.
pub fn snr_read_threshold(sf: i32) -> (r: Db)
    requires
        -1_000_000 <= sf <= 1_000_000,
    ensures
        r@ == read_threshold_spec(sf as int),
{
    let s = sf as i64;
    Db { milli_db: 10_000 - 2500 * s }
}

/// Minimum SNR for detecting (not decoding) a packet sent at spreading factor
/// `sf`; at present the same as the read threshold.
pub fn snr_detect_threshold(sf: i32) -> (r: Db)
    requires
        -1_000_000 <= sf <= 1_000_000,
    ensures
        r@ == read_threshold_spec(sf as int),
{
    snr_read_threshold(sf)
}

/// Croce et al. (2018): the signal-to-interference ratio, in whole decibels, at or
/// below which a target at spreading factor `7 + t` is lost to an interferer at
/// spreading factor `7 + i`.
pub open spec fn sir_table(t: int, i: int) -> int {
    let row: Seq<int> = if t == 0 {
        seq![1, -8, -9, -9, -9, -9]
    } else if t == 1 {
        seq![-11, 1, -11, -12, -13, -13]
    } else if t == 2 {
        seq![-15, -13, 1, -13, -14, -15]
    } else if t == 3 {
        seq![-19, -18, -17, 1, -17, -18]
    } else if t == 4 {
        seq![-22, -22, -21, -20, 1, -20]
    } else {
        seq![-25, -25, -25, -24, -23, 1]
    };
    row[i]
}

pub open spec fn valid_sf(sf: int) -> bool {
    7 <= sf <= 12
}

/// The capture threshold for a target sent at `target_sf` against an interferer
/// sent at `interferer_sf`.
pub fn sir_threshold(target_sf: i32, interferer_sf: i32) -> (r: Db)
    requires
        valid_sf(target_sf as int),
        valid_sf(interferer_sf as int),
    ensures
        r@ == 1000 * sir_table(target_sf - 7, interferer_sf - 7),
{
    let table: [[i32; 6]; 6] = [
        [1, -8, -9, -9, -9, -9],
        [-11, 1, -11, -12, -13, -13],
        [-15, -13, 1, -13, -14, -15],
        [-19, -18, -17, 1, -17, -18],
        [-22, -22, -21, -20, 1, -20],
        [-25, -25, -25, -24, -23, 1],
    ];
    let t = (target_sf - 7) as usize;
    let i = (interferer_sf - 7) as usize;
    let row = table[t];
    let v = row[i];
    assert(v == sir_table(t as int, i as int));
    Db::from_db(v)
}

/// Symbol time `2^sf / bandwidth` is over 16 ms: LoRa's low data rate
/// optimisation, which spends two bits of each symbol on robustness.
pub open spec fn low_data_rate(sf: int, bandwidth_hz: int) -> bool {
    pow2(sf as nat) * 1000 > 16 * bandwidth_hz
}

/// Symbols after the preamble for `size` bytes (header and body): eight, plus
/// the coded payload bits `8·size − 4·sf + 44` times `coding_rate / 4`, spread
/// over `sf` (or `sf − 2` at a low data rate) bits per symbol, rounded up, and
/// none where that count is not positive.
pub open spec fn payload_symbols(size: int, sf: int, coding_rate: int, bandwidth_hz: int) -> int {
    let bits = 8 * size - 4 * sf + 44;
    let per_symbol = if low_data_rate(sf, bandwidth_hz) { sf - 2 } else { sf };
    let coded = bits * coding_rate;
    let d = 4 * per_symbol;
    8 + if coded <= 0 { 0 } else { (coded + d - 1) / d }
}

/// Length of a packet in quarter symbols: the 16-symbol preamble with its
/// 4.25 sync symbols, then the payload symbols.
pub open spec fn packet_quarter_symbols(size: int, sf: int, coding_rate: int, bandwidth_hz: int) -> int {
    81 + 4 * payload_symbols(size, sf, coding_rate, bandwidth_hz)
}

/// Air time in whole microseconds (rounded down) of a packet of `size` bytes:
/// its symbols times the symbol time `2^sf / bandwidth`.
pub open spec fn air_time_micros(size: int, sf: int, coding_rate: int, bandwidth_hz: int) -> int {
    packet_quarter_symbols(size, sf, coding_rate, bandwidth_hz) * pow2(sf as nat) * 1_000_000 / (4
        * bandwidth_hz)
}

/// Settings within these limits give an air time of at least a microsecond
/// and at most 2^61 microseconds for packets up to 65 551 bytes.
pub proof fn lemma_air_time_bounds(size: int, sf: int, coding_rate: int, bandwidth_hz: int)
    requires
        0 <= size <= 65_551,
        valid_sf(sf),
        4 <= coding_rate <= 1000,
        1 <= bandwidth_hz <= 1_000_000_000,
    ensures
        1 <= air_time_micros(size, sf, coding_rate, bandwidth_hz) <= 0x2000_0000_0000_0000,
{
    lemma2_to64();
    let p = pow2(sf as nat) as int;
    assert(128 <= p <= 4096) by {
        if sf == 7 {} else if sf == 8 {} else if sf == 9 {} else if sf == 10 {} else if sf == 11 {} else {}
    }
    let bits = 8 * size - 4 * sf + 44;
    let per_symbol = if low_data_rate(sf, bandwidth_hz) { sf - 2 } else { sf };
    let coded = bits * coding_rate;
    let d = 4 * per_symbol;
    assert(coded <= 524_452 * 1000) by (nonlinear_arith)
        requires
            coded == bits * coding_rate,
            bits <= 524_452,
            0 <= coding_rate <= 1000,
    ;
    let extra = if coded <= 0 { 0 } else { (coded + d - 1) / d };
    if coded > 0 {
        assert((coded + d - 1) / d <= coded) by (nonlinear_arith)
            requires
                coded > 0,
                d >= 20,
        ;
    }
    assert(0 <= extra <= 524_452_000);
    let q = packet_quarter_symbols(size, sf, coding_rate, bandwidth_hz);
    assert(q == 81 + 4 * (8 + extra));
    assert(113 <= q <= 81 + 4 * (8 + 524_452_000));
    let num = q * p * 1_000_000;
    assert(113 * 128 * 1_000_000 <= num <= (81 + 4 * (8 + 524_452_000)) * 4096 * 1_000_000)
        by (nonlinear_arith)
        requires
            num == q * p * 1_000_000,
            113 <= q <= 81 + 4 * (8 + 524_452_000),
            128 <= p <= 4096,
    ;
    let den = 4 * bandwidth_hz;
    assert(num / den >= 1) by (nonlinear_arith)
        requires
            num >= 113 * 128 * 1_000_000,
            4 <= den <= 4_000_000_000,
    ;
    assert(num / den <= 0x2000_0000_0000_0000) by (nonlinear_arith)
        requires
            0 <= num <= (81 + 4 * (8 + 524_452_000)) * 4096 * 1_000_000,
            den >= 4,
    ;
    assert(air_time_micros(size, sf, coding_rate, bandwidth_hz) == num / den);
}

/// Air time of a packet of `payload_size` bytes (header and body) sent with
/// `radio_setting`.
pub fn calculate_air_time(payload_size: i32, radio_setting: &NodeSettings) -> (r: Time)
    requires
        payload_size >= 0,
        valid_sf(radio_setting.sf as int),
        radio_setting.coding_rate >= 4,
        radio_setting.bandwidth@ >= 1,
        air_time_micros(
            payload_size as int,
            radio_setting.sf as int,
            radio_setting.coding_rate as int,
            radio_setting.bandwidth@,
        ) <= u64::MAX,
    ensures
        r@ == air_time_micros(
            payload_size as int,
            radio_setting.sf as int,
            radio_setting.coding_rate as int,
            radio_setting.bandwidth@,
        ),
{
    let sf = radio_setting.sf;
    let cr = radio_setting.coding_rate as i128;
    let bw = radio_setting.bandwidth.hertz as u128;
    proof {
        lemma2_to64();
    }
    let p: u128 = if sf == 7 {
        128
    } else if sf == 8 {
        256
    } else if sf == 9 {
        512
    } else if sf == 10 {
        1024
    } else if sf == 11 {
        2048
    } else {
        4096
    };
    assert(p == pow2(sf as nat));
    let low = p * 1000 > 16 * bw;
    let per_symbol: i128 = if low { (sf - 2) as i128 } else { sf as i128 };
    let bits: i128 = 8 * (payload_size as i128) - 4 * (sf as i128) + 44;
    assert(-4 <= bits <= 8 * 0x7fff_ffffi128 + 44);
    assert(4 <= cr <= 0x7fff_ffff);
    assert(-4 * 0x7fff_ffffi128 <= bits * cr <= (8 * 0x7fff_ffffi128 + 44) * 0x7fff_ffff)
        by (nonlinear_arith)
        requires
            -4 <= bits <= 8 * 0x7fff_ffffi128 + 44,
            4 <= cr <= 0x7fff_ffff,
    ;
    let coded: i128 = bits * cr;
    let d: i128 = 4 * per_symbol;
    let extra: i128 = if coded <= 0 {
        0
    } else {
        (coded + d - 1) / d
    };
    if coded > 0 {
        assert((coded + d - 1) as int / (d as int) <= coded) by (nonlinear_arith)
            requires
                coded > 0,
                d >= 20,
        ;
    }
    assert(0 <= extra <= (8 * 0x7fff_ffffi128 + 44) * 0x7fff_ffff);
    let q: u128 = (81 + 4 * (8 + extra)) as u128;
    assert(q == packet_quarter_symbols(
        payload_size as int,
        sf as int,
        radio_setting.coding_rate as int,
        bw as int,
    ));
    assert(q * p * 1_000_000 <= 0x1_0000_0000_0000_0000_0000_0000_0000u128) by (nonlinear_arith)
        requires
            q <= 81 + 4 * (8 + (8 * 0x7fff_ffffi128 + 44) * 0x7fff_ffff),
            p <= 4096,
    ;
    let num: u128 = q * p * 1_000_000;
    let micros = num / (4 * bw);
    Time { micros: micros as u64 }
}

} // verus!
