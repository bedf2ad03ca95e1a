//! Errors that stop a kernel.

use vstd::prelude::*;

verus! {

/// A geometric precondition of a kernel does not hold in some frame.
#[derive(Clone, Copy, Debug, PartialEq, Eq, Structural)]
pub enum GeometryError {
    /// The oxygen with this identifier has fewer than two hydrogens within the covalent cutoff.
    BondedHydrogens { oxygen: i32 },
    /// The oxygen with this identifier has fewer than four oxygens within the neighbour shell.
    TetrahedralNeighbours { oxygen: i32 },
    /// A bonded hydrogen of the oxygen with this identifier lies on it, so
    /// that the H-O-H angle is undefined.
    UndefinedAngle { oxygen: i32 },
}

/// The first error among the outcomes `s[i..]`, or `None` where all succeed.
pub open spec fn first_error(s: Seq<Option<GeometryError>>, i: int) -> Option<GeometryError>
    decreases s.len() - i,
{
    if i < 0 || i >= s.len() {
        None
    } else if s[i] is Some {
        s[i]
    } else {
        first_error(s, i + 1)
    }
}

/// A kernel option cannot be used.
#[derive(Clone, Copy, Debug, PartialEq, Eq, Structural)]
pub enum ConfigurationError {
    /// The axis subset is none of `xyz`, `xy`, `xz`, `yz`, `x`, `y`, `z`.
    Direction,
    /// The lag sequence has a zero stride.
    LagStride,
    /// The histogram has no bins, or its cutoff is not positive or too large.
    Histogram,
    /// A one-based atom identifier is zero or beyond the atoms of a frame.
    AtomIndex,
}

} // verus!
