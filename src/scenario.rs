use vstd::prelude::*;

use crate::settings::CarrierBand;
use crate::units::{Db, Frequency, Time};

verus! {

/// A tag that a user message may carry.
#[derive(Clone, Copy, Debug, PartialEq, Eq, Structural)]
pub enum MessageMarker {
    Emergency,
}

/// Whether a node's owner declared it moving or fixed.
#[derive(Clone, Copy, Debug, PartialEq, Eq, Structural)]
pub enum MovementIndicator {
    Unset,
    Mobile,
    Stationary,
}

/// A message that a simulated user hands to a node.
#[derive(Clone, Debug)]
pub struct ScenarioMessage {
    pub sender: usize,
    /// One target makes a unicast, several a broadcast.
    pub targets: Vec<usize>,
    pub generate_time: Time,
    /// Payload size in bytes.
    pub size: i32,
    pub markers: Vec<MessageMarker>,
    /// How many times the message is generated in all.
    pub num_generations: u32,
    pub generation_spacing: Time,
}

impl ScenarioMessage {
    /// A message generated once, with no markers.
    pub fn new(sender: usize, targets: Vec<usize>, generate_time: Time, size: i32) -> (r: Self)
        ensures
            r.sender == sender,
            r.targets@ == targets@,
            r.generate_time == generate_time,
            r.size == size,
            r.markers@.len() == 0,
            r.num_generations == 1,
            r.generation_spacing@ == 1_000_000,
    {
        ScenarioMessage {
            sender,
            targets,
            generate_time,
            size,
            markers: Vec::new(),
            num_generations: 1,
            generation_spacing: Time::from_iseconds(1),
        }
    }

    /// The same message with `marker` added after its present markers.
    pub fn with_marker(self, marker: MessageMarker) -> (r: Self)
        ensures
            r.markers@ == self.markers@.push(marker),
            r.sender == self.sender,
            r.targets@ == self.targets@,
            r.generate_time == self.generate_time,
            r.size == self.size,
            r.num_generations == self.num_generations,
            r.generation_spacing == self.generation_spacing,
    {
        let mut m = self;
        m.markers.push(marker);
        m
    }

    /// The same message generated `total_generations` times, `spacing` apart.
    pub fn with_repeats(self, total_generations: u32, spacing: Time) -> (r: Self)
        ensures
            r.num_generations == total_generations,
            r.generation_spacing == spacing,
            r.markers@ == self.markers@,
            r.sender == self.sender,
            r.targets@ == self.targets@,
            r.generate_time == self.generate_time,
            r.size == self.size,
    {
        let mut m = self;
        m.num_generations = total_generations;
        m.generation_spacing = spacing;
        m
    }

    /// Whether the message carries the emergency marker.
    pub fn is_emergency(&self) -> (r: bool)
        ensures
            r == self.markers@.contains(MessageMarker::Emergency),
    {
        let mut i: usize = 0;
        while i < self.markers.len()
            invariant
                i <= self.markers@.len(),
                forall|j: int| 0 <= j < i ==> self.markers@[j] != MessageMarker::Emergency,
            decreases self.markers@.len() - i,
        {
            if self.markers[i] == MessageMarker::Emergency {
                return true;
            }
            i += 1;
        }
        false
    }
}

/// The radio settings a scenario gives a node.
#[derive(Clone, Copy, Debug)]
pub struct ScenarioNodeSettings {
    pub sf: i32,
    pub bandwidth: Frequency,
    pub coding_rate: i32,
    pub is_gateway: bool,
    pub movement_indicator: MovementIndicator,
    pub max_power: Db,
    pub carrier_band: CarrierBand,
    pub reaction_time: Time,
}

impl ScenarioNodeSettings {
    /// Spreading factor 11, 250 kHz, coding rate 5, 22 dBm on the 868 MHz band,
    /// 0.1 ms reaction time, not a gateway.
    pub fn standard() -> (r: Self)
        ensures
            r.sf == 11,
            r.bandwidth@ == 250_000,
            r.coding_rate == 5,
            !r.is_gateway,
            r.movement_indicator == MovementIndicator::Unset,
            r.max_power@ == 22_000,
            r.carrier_band == CarrierBand::B868,
            r.reaction_time@ == 100,
    {
        ScenarioNodeSettings {
            sf: 11,
            bandwidth: Frequency::from_hz(250_000),
            coding_rate: 5,
            is_gateway: false,
            movement_indicator: MovementIndicator::Unset,
            max_power: Db::from_milli_db(22_000),
            carrier_band: CarrierBand::B868,
            reaction_time: Time::from_micros(100),
        }
    }

    pub fn with_movement_indicator(self, indicator: MovementIndicator) -> (r: Self)
        ensures
            r == (ScenarioNodeSettings { movement_indicator: indicator, ..self }),
    {
        let mut s = self;
        s.movement_indicator = indicator;
        s
    }

    pub fn as_gateway(self) -> (r: Self)
        ensures
            r == (ScenarioNodeSettings { is_gateway: true, ..self }),
    {
        let mut s = self;
        s.is_gateway = true;
        s
    }
}

} // verus!
