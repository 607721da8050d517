//! Fog of an even density within a boundary.

use vstd::prelude::*;
use crate::scalar::Scalar;

verus! {

/// The stretch of a ray that lies within a boundary and within a range of
/// distances: from where the ray enters, or the range begins if that is
/// later, to where it leaves, or the range ends if that is sooner; none
/// where that stretch is empty. It begins at zero if it would begin before.
pub open spec fn segment_model(entry: Scalar, exit: Scalar, t_min: Scalar, t_max: Scalar) -> Option<
    (Scalar, Scalar),
> {
    let from = if entry.spec_lt(t_min) {
        t_min
    } else {
        entry
    };
    let to = if t_max.spec_lt(exit) {
        t_max
    } else {
        exit
    };
    if to.spec_le(from) {
        None
    } else if from.spec_lt(Scalar::spec_zero()) {
        Some((Scalar::spec_zero(), to))
    } else {
        Some((from, to))
    }
}

/// A fog of an even density within a boundary.
#[derive(Debug)]
pub struct ConstantMedium<H, M> {
    boundary: H,
    density: Scalar,
    phase_function: M,
}

impl<H, M> ConstantMedium<H, M> {
    /// The shape that holds the fog.
    pub closed spec fn spec_boundary(&self) -> H {
        self.boundary
    }

    /// How dense the fog is.
    pub closed spec fn spec_density(&self) -> Scalar {
        self.density
    }

    /// What the fog is made of.
    pub closed spec fn spec_phase_function(&self) -> M {
        self.phase_function
    }

    /// A fog within a boundary, of a density that is not zero.
    pub fn new(boundary: H, density: Scalar, phase_function: M) -> (medium: Self)
        requires
            !density.same(Scalar::spec_zero()),
        ensures
            medium.spec_boundary() == boundary,
            medium.spec_density() == density,
            medium.spec_phase_function() == phase_function,
    {
        ConstantMedium { boundary, density, phase_function }
    }

    /// The shape that holds the fog.
    pub fn boundary(&self) -> (boundary: &H)
        ensures
            *boundary == self.spec_boundary(),
    {
        &self.boundary
    }

    /// How dense the fog is.
    pub fn density(&self) -> (density: Scalar)
        ensures
            density == self.spec_density(),
    {
        self.density
    }

    /// What the fog is made of.
    pub fn phase_function(&self) -> (phase_function: &M)
        ensures
            *phase_function == self.spec_phase_function(),
    {
        &self.phase_function
    }

    /// The stretch of a ray within the fog, given the distances at which the
    /// ray enters and leaves the boundary and the range in which hits count.
    pub fn segment(entry: Scalar, exit: Scalar, t_min: Scalar, t_max: Scalar) -> (inside: Option<
        (Scalar, Scalar),
    >)
        ensures
            inside == segment_model(entry, exit, t_min, t_max),
    {
        let mut from = entry;
        let mut to = exit;
        if from.lt(t_min) {
            from = t_min;
        }
        if to.gt(t_max) {
            to = t_max;
        }
        if from.ge(to) {
            return None;
        }
        if from.lt(Scalar::zero()) {
            from = Scalar::zero();
        }
        Some((from, to))
    }

    /// Whether a ray that would go `free` far before it meets the fog meets
    /// it within a stretch of length `inside`: it does unless it would go
    /// farther.
    pub fn scatters(free: Scalar, inside: Scalar) -> (met: bool)
        ensures
            met == !inside.spec_lt(free),
    {
        !free.gt(inside)
    }
}

} // verus!
