use vstd::prelude::*;

use crate::scenario::{MovementIndicator, ScenarioNodeSettings};
use crate::units::{Db, Frequency, Length, Time};

verus! {

/// The band a node transmits in.
#[derive(Clone, Copy, Debug, PartialEq, Eq, Structural)]
pub enum CarrierBand {
    B433,
    B868,
}

impl CarrierBand {
    /// Wavelength at the centre frequency of the band's default slot.
    pub fn wave_length(self) -> (r: Length)
        ensures
            self == CarrierBand::B433 ==> r@ == 690_965_040,
            self == CarrierBand::B868 ==> r@ == 344_777_270,
    {
        match self {
            CarrierBand::B433 => Length { nanometres: 690_965_040 },
            CarrierBand::B868 => Length { nanometres: 344_777_270 },
        }
    }
}

/// A value given to a radio setting was out of its range.
#[derive(Clone, Copy, Debug, PartialEq, Eq, Structural)]
pub struct NodeUpdateError;

/// The radio settings a node runs with; the node's model may change some of them.
#[derive(Clone, Copy, Debug)]
pub struct NodeSettings {
    pub sf: i32,
    pub bandwidth: Frequency,
    /// Bits sent for each 4 bits of data: at least 4.
    pub coding_rate: i32,
    pub clock_offset: Time,
    pub is_gateway: bool,
    pub movement_indicator: MovementIndicator,
    /// Largest isotropic radiated power.
    pub max_power: Db,
    /// Power the node transmits with.
    pub use_power: Db,
    pub carrier_band: CarrierBand,
    /// Delay between asking for a send and the send.
    pub reaction_time: Time,
}

impl NodeSettings {
    /// The running settings for a scenario's settings: no clock offset, and
    /// transmitting at the largest power.
    pub open spec fn from_scenario_spec(value: ScenarioNodeSettings) -> NodeSettings {
        NodeSettings {
            sf: value.sf,
            bandwidth: value.bandwidth,
            coding_rate: value.coding_rate,
            clock_offset: Time { micros: 0 },
            is_gateway: value.is_gateway,
            movement_indicator: value.movement_indicator,
            max_power: value.max_power,
            use_power: value.max_power,
            carrier_band: value.carrier_band,
            reaction_time: value.reaction_time,
        }
    }

    pub fn from_scenario(value: ScenarioNodeSettings) -> (r: Self)
        ensures
            r == Self::from_scenario_spec(value),
    {
        NodeSettings {
            sf: value.sf,
            bandwidth: value.bandwidth,
            coding_rate: value.coding_rate,
            clock_offset: Time::from_micros(0),
            is_gateway: value.is_gateway,
            movement_indicator: value.movement_indicator,
            max_power: value.max_power,
            use_power: value.max_power,
            carrier_band: value.carrier_band,
            reaction_time: value.reaction_time,
        }
    }

    /// Sets the spreading factor, which must lie in 7..=12.
    pub fn change_sf(&mut self, sf: i32) -> (r: Result<(), NodeUpdateError>)
        ensures
            (7 <= sf <= 12) == (r is Ok),
            r is Ok ==> *final(self) == (NodeSettings { sf, ..*old(self) }),
            r is Err ==> *final(self) == *old(self),
    {
        if sf < 7 || sf > 12 {
            return Err(NodeUpdateError);
        }
        self.sf = sf;
        Ok(())
    }

    /// Sets the coding rate, which must be at least 4.
    pub fn change_coding_rate(&mut self, coding_rate: i32) -> (r: Result<(), NodeUpdateError>)
        ensures
            (coding_rate >= 4) == (r is Ok),
            r is Ok ==> *final(self) == (NodeSettings { coding_rate, ..*old(self) }),
            r is Err ==> *final(self) == *old(self),
    {
        if coding_rate < 4 {
            return Err(NodeUpdateError);
        }
        self.coding_rate = coding_rate;
        Ok(())
    }

    pub fn change_bandwidth(&mut self, bandwidth: Frequency)
        ensures
            *final(self) == (NodeSettings { bandwidth, ..*old(self) }),
    {
        self.bandwidth = bandwidth;
    }

    /// Sets the power in use, which may not exceed the largest power.
    pub fn change_power(&mut self, use_power: Db) -> (r: Result<(), NodeUpdateError>)
        ensures
            (use_power@ <= old(self).max_power@) == (r is Ok),
            r is Ok ==> *final(self) == (NodeSettings { use_power, ..*old(self) }),
            r is Err ==> *final(self) == *old(self),
    {
        if use_power.milli_db > self.max_power.milli_db {
            return Err(NodeUpdateError);
        }
        self.use_power = use_power;
        Ok(())
    }
}

} // verus!
