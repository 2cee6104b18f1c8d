//! Airports and runway references.

use vstd::prelude::*;
use crate::position::PositionReference;

verus! {

/// An airport.  The geographic location is handled by unverified
/// collaborators and never read by any check, so it is not part of this
/// type.
#[derive(Clone, Debug, PartialEq, Eq)]
pub struct Airport {
    pub name: String,
    pub iata_designator: Option<String>,
    /// Elevation in feet
    pub elevation: Option<i32>,
    /// Ordered priority groups, each an unordered list of alternatives
    pub position_priority: Vec<Vec<PositionReference>>,
    pub runways: Vec<String>,
}

/// A runway of an airport, by airport code and runway designator.
#[derive(Clone, Debug, PartialEq, Eq)]
pub struct RunwayReference {
    pub icao: String,
    pub designator: String,
}

} // verus!
