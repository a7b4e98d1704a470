//! Integer 3-vectors: positions, midpoints and mass-weighted position sums.

use vstd::prelude::*;

verus! {

/// A 3-vector of integer coordinates, in the caller's fixed-point scale.
#[derive(Clone, Copy, Debug, PartialEq, Eq, Structural)]
pub struct V3 {
    pub x: i64,
    pub y: i64,
    pub z: i64,
}

impl V3 {
    /// Every coordinate has magnitude at most `c`.
    pub open spec fn bounded(self, c: int) -> bool {
        &&& -c <= self.x <= c
        &&& -c <= self.y <= c
        &&& -c <= self.z <= c
    }

}

} // verus!
