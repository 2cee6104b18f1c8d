//! Sectors: named groups of volumes with prioritised controlling positions.

use vstd::prelude::*;
use crate::airport::RunwayReference;
use crate::position::PositionReference;

verus! {

/// An airspace sector.
#[derive(Clone, Debug, PartialEq, Eq)]
pub struct Sector {
    pub name: Option<String>,
    /// Ids of the volumes making up the sector
    pub volumes: Vec<String>,
    pub runway_filter: Vec<Vec<RunwayReference>>,
    /// Ordered priority groups, each an unordered list of alternatives
    pub position_priority: Vec<Vec<PositionReference>>,
}

} // verus!
