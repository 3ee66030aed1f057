use vstd::prelude::*;

verus! {

/// Microseconds in one millisecond.
pub const MICROS_PER_MILLI: u64 = 1000;

/// Microseconds in one second.
pub const MICROS_PER_SECOND: u64 = 1_000_000;

/// A point in, or a span of, simulated time, in whole microseconds.
#[derive(Clone, Copy, Debug, PartialEq, Eq, Structural, PartialOrd, Ord, Hash)]
pub struct Time {
    pub micros: u64,
}

impl Time {
    pub open spec fn view(self) -> int {
        self.micros as int
    }

    /// A time from a whole number of milliseconds.
    pub fn from_imilis(milis: u64) -> (r: Time)
        requires
            milis * 1000 <= u64::MAX,
        ensures
            r@ == milis * 1000,
    {
        Time { micros: milis * MICROS_PER_MILLI }
    }

    /// A time from a whole number of seconds.
    pub fn from_iseconds(seconds: u64) -> (r: Time)
        requires
            seconds * 1_000_000 <= u64::MAX,
        ensures
            r@ == seconds * 1_000_000,
    {
        Time { micros: seconds * MICROS_PER_SECOND }
    }

    pub fn from_micros(micros: u64) -> (r: Time)
        ensures
            r@ == micros,
    {
        Time { micros }
    }

    /// The sum of two times; `None` where it leaves the representable range.
    pub fn checked_add(self, other: Time) -> (r: Option<Time>)
        ensures
            self@ + other@ <= u64::MAX ==> r == Some(Time { micros: (self@ + other@) as u64 }),
            self@ + other@ > u64::MAX ==> r is None,
    {
        match self.micros.checked_add(other.micros) {
            Some(m) => Some(Time { micros: m }),
            None => None,
        }
    }
}

/// A logarithmic quantity in thousandths of a decibel.
///
/// Used for absolute powers (dBm), gains and ratios alike: adding two of them
/// multiplies the underlying linear quantities.
#[derive(Clone, Copy, Debug, PartialEq, Eq, Structural, PartialOrd, Ord, Hash)]
pub struct Db {
    pub milli_db: i64,
}

/// Bound on the magnitude of every decibel value the library handles.
pub const DB_LIMIT: i64 = 1_000_000_000_000;

impl Db {
    pub open spec fn view(self) -> int {
        self.milli_db as int
    }

    pub open spec fn in_range(self) -> bool {
        -DB_LIMIT <= self.milli_db <= DB_LIMIT
    }

    pub fn in_range_exec(self) -> (r: bool)
        ensures
            r == self.in_range(),
    {
        -DB_LIMIT <= self.milli_db && self.milli_db <= DB_LIMIT
    }

    pub fn from_milli_db(milli_db: i64) -> (r: Db)
        ensures
            r@ == milli_db,
    {
        Db { milli_db }
    }

    /// A value of a whole number of decibels.
    pub fn from_db(db: i32) -> (r: Db)
        ensures
            r@ == db * 1000,
    {
        Db { milli_db: db as i64 * 1000 }
    }

    pub fn add(self, other: Db) -> (r: Db)
        requires
            self.in_range(),
            other.in_range(),
        ensures
            r@ == self@ + other@,
    {
        Db { milli_db: self.milli_db + other.milli_db }
    }

    pub fn sub(self, other: Db) -> (r: Db)
        requires
            self.in_range(),
            other.in_range(),
        ensures
            r@ == self@ - other@,
    {
        Db { milli_db: self.milli_db - other.milli_db }
    }

    /// The value held between `lo` and `hi`.
    pub fn clamp(self, lo: Db, hi: Db) -> (r: Db)
        requires
            lo@ <= hi@,
        ensures
            r@ == if self@ < lo@ { lo@ } else if self@ > hi@ { hi@ } else { self@ },
    {
        if self.milli_db < lo.milli_db {
            lo
        } else if self.milli_db > hi.milli_db {
            hi
        } else {
            self
        }
    }
}

/// A frequency in whole hertz.
#[derive(Clone, Copy, Debug, PartialEq, Eq, Structural, PartialOrd, Ord, Hash)]
pub struct Frequency {
    pub hertz: u64,
}

impl Frequency {
    pub open spec fn view(self) -> int {
        self.hertz as int
    }

    pub fn from_hz(hertz: u64) -> (r: Frequency)
        ensures
            r@ == hertz,
    {
        Frequency { hertz }
    }

    pub fn from_khz(khz: u64) -> (r: Frequency)
        requires
            khz * 1000 <= u64::MAX,
        ensures
            r@ == khz * 1000,
    {
        Frequency { hertz: khz * 1000 }
    }
}

/// A length in whole nanometres.
#[derive(Clone, Copy, Debug, PartialEq, Eq, Structural, PartialOrd, Ord, Hash)]
pub struct Length {
    pub nanometres: i64,
}

/// Speed of light in air, in metres per second.
pub const LIGHTSPEED_AIR: u64 = 299_702_547;

/// Nanometres in one metre.
pub const NANOMETRES_PER_METRE: i64 = 1_000_000_000;

impl Length {
    pub open spec fn view(self) -> int {
        self.nanometres as int
    }

    pub fn from_nanometres(nanometres: i64) -> (r: Length)
        ensures
            r@ == nanometres,
    {
        Length { nanometres }
    }

    /// A length of a whole number of metres.
    pub fn from_imetres(metres: i32) -> (r: Length)
        ensures
            r@ == metres * 1_000_000_000,
    {
        Length { nanometres: metres as i64 * NANOMETRES_PER_METRE }
    }
}

impl Frequency {
    /// Wavelength in air of light at this frequency, in nanometres rounded down.
    pub fn light_wavelength(self) -> (r: Length)
        requires
            self@ >= 1,
        ensures
            r@ == (LIGHTSPEED_AIR * 1_000_000_000) as int / self@,
    {
        let n: u64 = LIGHTSPEED_AIR * 1_000_000_000;
        let q = n / self.hertz;
        assert(q <= n);
        Length { nanometres: q as i64 }
    }
}

} // verus!
