//! Consistency checks for a distributed dataset describing airspace
//! structure (flight information regions, airports, radio positions,
//! sectors, vertical volumes), and reconciliation of that dataset against
//! an externally published registry of radio positions.
//!
//! The dataset is loaded by unverified collaborators and handed over as
//! plain in-memory values; every check in this crate is a pure, read-only
//! pass that returns an ordered list of violations.

mod airport;
pub mod checks;
pub mod keys;
mod position;
mod sector;
pub mod text;
pub mod vateud8;
mod volume;

pub use airport::Airport;
pub use airport::RunwayReference;
pub use position::GcapTier;
pub use position::Position;
pub use position::PositionReference;
pub use position::StationType;
pub use sector::Sector;
pub use volume::ConstraintError;
pub use volume::Volume;

use vstd::prelude::*;
use crate::keys::{find_from, ids_distinct};

verus! {

/// The kind of entity a bad position reference was found in.
#[derive(Clone, Copy, Debug, PartialEq, Eq, Structural)]
pub enum InvalidPositionReferenceType {
    Sector,
    Airport,
}

/// One violated dataset invariant.  Violations are plain values collected
/// into a batch; no check ever fails early.
#[derive(Clone, Debug, PartialEq, Eq)]
pub enum Error {
    /// A volume with broken level constraints: region, volume id, constraint
    InvalidVolume(String, String, ConstraintError),
    /// Two positions colliding on frequency, prefix and station type:
    /// region and id of each
    DuplicatePosition(String, String, String, String),
    /// A reference to a position that does not exist: owner kind, owner
    /// region and id, referenced region and position id
    InvalidPositionReference(InvalidPositionReferenceType, String, String, String, String),
}

/// One flight information region: its entities, each keyed by an id unique
/// within the region.
#[derive(Debug, Default, PartialEq, Eq)]
pub struct FIR {
    pub airports: Vec<(String, Airport)>,
    pub positions: Vec<(String, Position)>,
    pub sectors: Vec<(String, Sector)>,
    pub volumes: Vec<(String, Volume)>,
}

impl FIR {
    /// Ids are unique within each entity collection.
    pub open spec fn wf(self) -> bool {
        &&& ids_distinct(self.airports@)
        &&& ids_distinct(self.positions@)
        &&& ids_distinct(self.sectors@)
        &&& ids_distinct(self.volumes@)
    }
}

/// Global reconciliation settings: external regions and external names the
/// orphan check ignores.
#[derive(Debug, Default, PartialEq, Eq)]
pub struct Vateud8Config {
    pub ignore_regions: Vec<u32>,
    pub ignore_extra: Vec<String>,
}

/// Per-region reconciliation settings.
#[derive(Debug, PartialEq, Eq)]
pub struct FirConfig {
    /// The id of this region in the external registry, if it is published
    pub vateud8_region: Option<u32>,
    /// Position ids exempt from reconciliation
    pub vateud8_ignore: Vec<String>,
    pub optional_frequency: bool,
}

/// The configuration object loaded alongside the dataset.
#[derive(Debug, Default, PartialEq, Eq)]
pub struct Config {
    pub vateud8: Vateud8Config,
    pub firs: Vec<(String, FirConfig)>,
}

/// A loaded dataset: regions keyed by unique name, plus configuration.
/// Treated as immutable by every check.
#[derive(Debug, Default, PartialEq, Eq)]
pub struct OpenData {
    pub firs: Vec<(String, FIR)>,
    pub config: Config,
}

impl OpenData {
    /// Region names and configuration keys are unique, and every region is
    /// internally well formed.
    pub open spec fn wf(self) -> bool {
        &&& ids_distinct(self.firs@)
        &&& forall|i: int| 0 <= i < self.firs@.len() ==> (#[trigger] self.firs@[i].1).wf()
        &&& ids_distinct(self.config.firs@)
    }

    /// Look a region up by name.
    pub fn get_fir(&self, name: &str) -> (r: Option<&FIR>)
        ensures
            match r {
                Some(f) => find_from(self.firs@, name@, 0) == Some(*f),
                None => find_from(self.firs@, name@, 0) is None,
            },
    {
        keys::find_entry(&self.firs, name)
    }
}

} // verus!
