//! Per-location speciation probabilities.

use vstd::prelude::*;

verus! {

use crate::bond::ClosedUnitF64;
use crate::landscape::Location;

/// One speciation probability for every location.
#[derive(Clone, Copy, PartialEq, Eq, Structural, Debug)]
pub struct UniformSpeciationProbability {
    pub speciation_probability: ClosedUnitF64,
}

impl UniformSpeciationProbability {
    /// The landscape-wide probability `speciation_probability`.
    pub fn new(speciation_probability: ClosedUnitF64) -> (r: Self)
        ensures
            r.speciation_probability == speciation_probability,
    {
        UniformSpeciationProbability { speciation_probability }
    }

    /// The probability, wherever the location.
    pub fn get_speciation_probability_at_location(&self, location: &Location) -> (r: ClosedUnitF64)
        ensures
            r == self.speciation_probability,
    {
        self.speciation_probability
    }
}

} // verus!
