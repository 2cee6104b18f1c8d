//! Radio positions and references to them.

use vstd::prelude::*;

verus! {

/// The closed set of station kinds a position can have.
#[derive(Clone, Copy, Debug, PartialEq, Eq, Structural)]
pub enum StationType {
    ClearanceDelivery,
    Ramp,
    Radio,
    TrafficManagement,
    FlowManagement,
    Ground,
    Tower,
    Approach,
    Departure,
    Center,
    FlightServiceStation,
}

/// Tiered classification of a position; the second tier carries a group
/// label.
#[derive(Clone, Debug, PartialEq, Eq)]
pub enum GcapTier {
    One,
    Two(String),
}

/// A controllable radio seat.
#[derive(Clone, Debug, PartialEq, Eq)]
pub struct Position {
    /// Frequency in Hz
    pub frequency: u32,
    pub prefix: String,
    pub station_type: StationType,
    pub name: Option<String>,
    pub radio_callsign: String,
    pub cpdlc_logon: Option<String>,
    pub airspace_groups: Vec<String>,
    pub gcap_tier: Option<GcapTier>,
}

/// A reference to a position, optionally in another region; an absent
/// region means the region of the referencing entity.
#[derive(Clone, Debug, PartialEq, Eq)]
pub struct PositionReference {
    pub fir: Option<String>,
    pub id: String,
}

} // verus!
