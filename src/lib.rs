//! Discrete-event simulation of LoRa-style mesh radio networks: the timing,
//! capture-effect, channel-access and routing decisions, stated over integer
//! models of time (microseconds), power (milli-decibels) and bandwidth (hertz).
use vstd::prelude::*;

pub mod analysis;
pub mod capture;
pub mod em;
pub mod events;
pub mod lora;
pub mod meshtastic;
pub mod models;
pub mod node;
pub mod node_location;
pub mod notify;
pub mod params;
pub mod radio;
pub mod rng;
pub mod routing;
pub mod scenario;
pub mod settings;
pub mod simulation;
pub mod streams;
pub mod units;
pub mod verification;

verus! {

} // verus!
