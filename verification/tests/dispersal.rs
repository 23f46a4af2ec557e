//! The cumulative dispersal sampler: construction validity, the
//! only-valid-targets guarantee, and the empirical target frequencies.

use necsim::InMemoryCumulativeDispersalSampler;
use necsim::InMemoryPackedAliasDispersalSampler;
use necsim::InMemoryDispersalSamplerError;
use necsim::InMemoryHabitat;
use necsim::Location;
use necsim::MathsCore;
use necsim::NonNegativeF64;
use necsim::WyHash;

struct HardwareMathsDispersal;

fn nonneg_bits(x: f64) -> u64 {
    if x == 0.0 {
        0
    } else {
        x.to_bits()
    }
}

impl MathsCore for HardwareMathsDispersal {
    fn add_nonneg(a: u64, b: u64) -> u64 {
        nonneg_bits(f64::from_bits(a) + f64::from_bits(b))
    }

    fn mul_nonneg(a: u64, b: u64) -> u64 {
        nonneg_bits(f64::from_bits(a) * f64::from_bits(b))
    }

    fn div_nonneg(a: u64, b: u64) -> u64 {
        nonneg_bits(f64::from_bits(a) / f64::from_bits(b))
    }

    fn neg_ln_unit(a: u64) -> u64 {
        nonneg_bits(-f64::from_bits(a).ln())
    }

    fn sub_nonneg(a: u64, b: u64) -> u64 {
        nonneg_bits(f64::from_bits(a) - f64::from_bits(b))
    }

    fn u64_to_f64(n: u64) -> u64 {
        nonneg_bits(n as f64)
    }

    fn floor_to_u64(a: u64) -> u64 {
        f64::from_bits(a).floor() as u64
    }
}

fn nn(x: f64) -> NonNegativeF64 {
    NonNegativeF64::new(x.to_bits()).unwrap()
}

fn matrix(rows: &[&[f64]]) -> Vec<NonNegativeF64> {
    rows.iter().flat_map(|r| r.iter().map(|&x| nn(x))).collect()
}

#[test]
fn dispersal_construction_enforces_the_validity_contract() {
    let habitat = InMemoryHabitat::try_new(vec![1, 0, 2, 1], 2, 2).unwrap();

    // a consistent matrix is accepted
    let good = matrix(&[
        &[0.25, 0.0, 0.5, 0.25],
        &[0.25, 0.0, 0.5, 0.25],
        &[1.0, 0.0, 0.0, 0.0],
        &[0.0, 0.0, 1.0, 0.0],
    ]);
    assert!(InMemoryCumulativeDispersalSampler::new::<HardwareMathsDispersal>(&good, &habitat)
        .is_ok());

    // a wrongly sized matrix is rejected
    let short = matrix(&[&[1.0, 0.0, 0.0]]);
    assert_eq!(
        InMemoryCumulativeDispersalSampler::new::<HardwareMathsDispersal>(&short, &habitat)
            .unwrap_err(),
        InMemoryDispersalSamplerError::InconsistentDispersalMapSize
    );

    // a habitable cell with no dispersal at all is rejected
    let marooned = matrix(&[
        &[0.0, 0.0, 0.0, 0.0],
        &[0.25, 0.0, 0.5, 0.25],
        &[1.0, 0.0, 0.0, 0.0],
        &[0.0, 0.0, 1.0, 0.0],
    ]);
    assert_eq!(
        InMemoryCumulativeDispersalSampler::new::<HardwareMathsDispersal>(&marooned, &habitat)
            .unwrap_err(),
        InMemoryDispersalSamplerError::InconsistentDispersalProbabilities
    );

    // dispersal into an uninhabitable cell is rejected
    let trespassing = matrix(&[
        &[0.25, 0.5, 0.0, 0.25],
        &[0.25, 0.25, 0.25, 0.25],
        &[1.0, 0.0, 0.0, 0.0],
        &[0.0, 0.0, 1.0, 0.0],
    ]);
    assert_eq!(
        InMemoryCumulativeDispersalSampler::new::<HardwareMathsDispersal>(&trespassing, &habitat)
            .unwrap_err(),
        InMemoryDispersalSamplerError::InconsistentDispersalProbabilities
    );
}

#[test]
fn dispersal_never_draws_invalid_targets() {
    let habitat = InMemoryHabitat::try_new(vec![1, 0, 2, 1], 2, 2).unwrap();
    // from the top-left cell, only the bottom row is reachable
    let dispersal = matrix(&[
        &[0.0, 0.0, 0.75, 0.25],
        &[0.0, 0.0, 0.5, 0.5],
        &[0.5, 0.0, 0.25, 0.25],
        &[0.5, 0.0, 0.5, 0.0],
    ]);
    let sampler =
        InMemoryCumulativeDispersalSampler::new::<HardwareMathsDispersal>(&dispersal, &habitat)
            .unwrap();

    let mut rng = WyHash::seed_from_u64(13);
    let origin = Location::new(0, 0);
    for _ in 0..10_000 {
        let target = sampler.sample_dispersal_from_location(&origin, &habitat, &mut rng);
        // always habitable, never the zero-weight top row
        assert!(habitat.is_location_habitable(&target));
        assert_ne!(target, Location::new(0, 0));
        assert_ne!(target, Location::new(1, 0));
    }
}

#[test]
fn dispersal_frequencies_match_capacity_weighted_rows() {
    const N: usize = 1_000_000;

    // two habitable cells of capacity 1 and 3: the dispersal entries are
    // equal, so the capacity weighting alone sets the 1:3 odds
    let habitat = InMemoryHabitat::try_new(vec![1, 3], 2, 1).unwrap();
    let dispersal = matrix(&[&[0.5, 0.5], &[0.5, 0.5]]);
    let sampler =
        InMemoryCumulativeDispersalSampler::new::<HardwareMathsDispersal>(&dispersal, &habitat)
            .unwrap();

    let mut rng = WyHash::seed_from_u64(808);
    let origin = Location::new(1, 0);
    let mut tally = [0_u64; 2];
    for _ in 0..N {
        let target = sampler.sample_dispersal_from_location(&origin, &habitat, &mut rng);
        tally[target.x as usize] += 1;
    }

    let measured = tally[0] as f64 / N as f64;
    assert!((measured - 0.25).abs() < 0.005);
}

#[test]
fn packed_alias_dispersal_matches_the_cumulative_frequencies() {
    const N: usize = 1_000_000;

    let habitat = InMemoryHabitat::try_new(vec![1, 3], 2, 1).unwrap();
    let dispersal = matrix(&[&[0.5, 0.5], &[0.5, 0.5]]);
    let sampler =
        InMemoryPackedAliasDispersalSampler::new::<HardwareMathsDispersal>(&dispersal, &habitat)
            .unwrap();

    let mut rng = WyHash::seed_from_u64(909);
    let origin = Location::new(0, 0);
    let mut tally = [0_u64; 2];
    for _ in 0..N {
        let target = sampler.sample_dispersal_from_location(&origin, &habitat, &mut rng);
        assert!(habitat.is_location_habitable(&target));
        tally[target.x as usize] += 1;
    }

    // capacity weighting sets 1:3 odds, exactly as for the cumulative walk
    let measured = tally[0] as f64 / N as f64;
    assert!((measured - 0.25).abs() < 0.005);
}

#[test]
fn packed_alias_rejects_invalid_maps() {
    let habitat = InMemoryHabitat::try_new(vec![1, 0, 2, 1], 2, 2).unwrap();
    let marooned = matrix(&[
        &[0.0, 0.0, 0.0, 0.0],
        &[0.25, 0.0, 0.5, 0.25],
        &[1.0, 0.0, 0.0, 0.0],
        &[0.0, 0.0, 1.0, 0.0],
    ]);
    assert_eq!(
        InMemoryPackedAliasDispersalSampler::new::<HardwareMathsDispersal>(&marooned, &habitat)
            .unwrap_err(),
        InMemoryDispersalSamplerError::InconsistentDispersalProbabilities
    );
    let short = matrix(&[&[1.0]]);
    assert_eq!(
        InMemoryPackedAliasDispersalSampler::new::<HardwareMathsDispersal>(&short, &habitat)
            .unwrap_err(),
        InMemoryDispersalSamplerError::InconsistentDispersalMapSize
    );
}
