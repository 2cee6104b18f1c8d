//! Vertical airspace volumes and their level constraints.

use vstd::prelude::*;

verus! {

/// A three-dimensional airspace block, reduced to its vertical bounds.
/// The lateral polygon boundary is handled by unverified collaborators
/// and never inspected by any check, so it is not part of this type.
#[derive(Clone, Copy, Debug, PartialEq, Eq)]
pub struct Volume {
    /// Lower vertical boundary as a flight level
    pub lower_level: u64,
    /// Upper vertical boundary as a flight level
    pub upper_level: u64,
}

/// One failed level invariant of a single volume.
#[derive(Clone, Copy, Debug, PartialEq, Eq)]
pub enum ConstraintError {
    LowerLevelGreater,
    UpperLevelMaximum,
}

/// The highest flight level a volume may reach.
pub const MAX_UPPER_LEVEL: u64 = 999;

impl Volume {
    /// Both level constraints hold.
    pub open spec fn levels_ok(self) -> bool {
        self.lower_level < self.upper_level && self.upper_level <= MAX_UPPER_LEVEL
    }

    /// The level violations of this volume, in check order: the lower-bound
    /// check first, then the upper-bound check.  Both can fire at once.
    pub open spec fn level_errors(self) -> Seq<ConstraintError> {
        (if self.lower_level >= self.upper_level {
            seq![ConstraintError::LowerLevelGreater]
        } else {
            Seq::<ConstraintError>::empty()
        }) + (if self.upper_level > MAX_UPPER_LEVEL {
            seq![ConstraintError::UpperLevelMaximum]
        } else {
            Seq::<ConstraintError>::empty()
        })
    }

    /// Check the vertical constraints of one volume.  Returns every violated
    /// constraint; a well-formed volume yields `Ok`.
    pub fn check_level(&self) -> (r: Result<(), Vec<ConstraintError>>)
        ensures
            match r {
                Ok(()) => self.levels_ok() && self.level_errors() == Seq::<ConstraintError>::empty(),
                Err(v) => !self.levels_ok() && v@ == self.level_errors() && v@.len() > 0,
            },
    {
        let mut errs: Vec<ConstraintError> = Vec::new();
        if self.lower_level >= self.upper_level {
            errs.push(ConstraintError::LowerLevelGreater);
        }
        if self.upper_level > MAX_UPPER_LEVEL {
            errs.push(ConstraintError::UpperLevelMaximum);
        }
        proof {
            assert(errs@ =~= self.level_errors());
        }
        if errs.len() == 0 {
            proof {
                assert(self.level_errors() =~= Seq::<ConstraintError>::empty());
            }
            Ok(())
        } else {
            Err(errs)
        }
    }
}

} // verus!
