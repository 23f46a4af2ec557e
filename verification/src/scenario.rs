//! The spatially explicit, uniform-turnover scenario: the cog bundle
//! the command-line front end assembles from a habitat map.

use vstd::prelude::*;

verus! {

use crate::bond::ClosedUnitF64;
use crate::bond::OpenClosedUnitF64;
use crate::bond::PositiveF64;
use crate::habitat::InMemoryHabitat;
use crate::speciation::UniformSpeciationProbability;
use crate::turnover::UniformTurnoverRate;

/// Why an in-memory dispersal map was rejected.
#[derive(Clone, Copy, PartialEq, Eq, Structural, Debug)]
pub enum InMemoryDispersalSamplerError {
    /// The dispersal map is not a square of the habitat area.
    InconsistentDispersalMapSize,
    /// Some habitable cell has no dispersal at all, or dispersal
    /// targets an uninhabitable cell.
    InconsistentDispersalProbabilities,
}

/// Why the scenario could not be assembled.
#[derive(Clone, Copy, PartialEq, Eq, Structural, Debug)]
pub enum SpatiallyExplicitUniformTurnoverScenarioError {
    /// The habitat map holds no habitable cell.
    EmptyHabitatMap,
    /// The dispersal map does not fit the habitat.
    DispersalMap(InMemoryDispersalSamplerError),
}

/// The spatially explicit scenario with one turnover rate everywhere.
#[derive(Clone, Copy, PartialEq, Eq, Structural, Debug)]
pub enum SpatiallyExplicitUniformTurnoverScenario {
    UniformTurnover,
}

/// The cogs the scenario assembles.
#[derive(PartialEq, Eq, Debug)]
pub struct ScenarioCogs {
    pub habitat: InMemoryHabitat,
    pub turnover_rate: UniformTurnoverRate,
    pub speciation_probability: UniformSpeciationProbability,
}

impl SpatiallyExplicitUniformTurnoverScenario {
    /// Assembles the scenario cogs from a row-major habitat map, a
    /// landscape-wide turnover rate and a speciation probability;
    /// rejects a map with no habitable cell.
    pub fn new(
        habitat_map: Vec<u32>,
        width: u32,
        height: u32,
        turnover_rate: PositiveF64,
        speciation_probability_per_generation: OpenClosedUnitF64,
    ) -> (r: Result<ScenarioCogs, SpatiallyExplicitUniformTurnoverScenarioError>)
        ensures
            match r {
                Ok(cogs) => {
                    &&& cogs.habitat.well_formed()
                    &&& cogs.habitat.width == width
                    &&& cogs.habitat.height == height
                    &&& cogs.turnover_rate.turnover_rate == turnover_rate
                    &&& cogs.speciation_probability.speciation_probability@
                        == speciation_probability_per_generation@
                },
                Err(e) => e
                    == SpatiallyExplicitUniformTurnoverScenarioError::EmptyHabitatMap,
            },
            r is Ok <==> (width >= 1 && height >= 1 && width * height <= usize::MAX
                && habitat_map@.len() == width * height && 1 <= crate::habitat::spec_capacity_sum(
                habitat_map@,
                habitat_map@.len() as int,
            ) <= u64::MAX),
    {
        match InMemoryHabitat::try_new(habitat_map, width, height) {
            Some(habitat) => Ok(
                ScenarioCogs {
                    habitat,
                    turnover_rate: UniformTurnoverRate::new(turnover_rate),
                    speciation_probability: UniformSpeciationProbability::new(
                        speciation_probability_per_generation.into_closed_unit(),
                    ),
                },
            ),
            None => Err(SpatiallyExplicitUniformTurnoverScenarioError::EmptyHabitatMap),
        }
    }
}

} // verus!
