//! Numeric caps that keep every intermediate of the tree and of the force
//! law inside the fixed-width integer types used by the implementation.
//!
//! Coordinates are plain integers in a fixed-point scale chosen by the
//! caller (for example, 1000 units per world unit). The caps below bound
//! the inputs so that mass-weighted position sums fit in `i64` and the
//! acceptance criterion and force law fit in `u128`.

use vstd::prelude::*;

verus! {

/// Largest magnitude of a body coordinate, in caller units.
pub const MAX_COORD: i64 = 1048576;

/// Largest magnitude of one body's mass.
pub const MAX_BODY_MASS: i64 = 65536;

/// Largest number of bodies one tree accepts.
pub const MAX_BODIES: usize = 4096;

/// Largest numerator and denominator of the acceptance threshold `theta`.
pub const MAX_THETA: i64 = 1024;

/// Largest magnitude of the force-constant numerator and denominator.
pub const MAX_FORCE_CONST: i64 = 65536;

/// Largest edge length of a root cell: the widest box over coordinates in
/// `[-MAX_COORD, MAX_COORD]`.
pub const MAX_SIZE: i64 = 2097152;

/// Bound on `|midpoint coordinate| + size` for every cell; it holds at the
/// root and is preserved when a cell subdivides.
pub const MID_LIMIT: i64 = 3145728;

} // verus!
