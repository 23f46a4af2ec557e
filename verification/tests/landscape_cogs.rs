//! The landscape, its injective slot numbering, the turnover and
//! scenario validation, and the small partitioning cogs.

use necsim::FixedEventTimeSampler;
use necsim::GillespieAlgorithm;
use necsim::InMemoryHabitat;
use necsim::InMemoryOriginSampler;
use necsim::InMemoryTurnoverRate;
use necsim::InMemoryTurnoverRateError;
use necsim::IndexedLocation;
use necsim::LandscapeExtent;
use necsim::Location;
use necsim::MathsCore;
use necsim::MonolithicDecomposition;
use necsim::NeverEmigrationExit;
use necsim::NeverImmigrationEntry;
use necsim::ImmigrationEntry;
use necsim::NonNegativeF64;
use necsim::OffByOneU64;
use necsim::Partition;
use necsim::PositiveF64;
use necsim::PrimeableRng;
use necsim::RngCore;
use necsim::SpatiallyExplicitUniformTurnoverScenario;
use necsim::SpatiallyExplicitUniformTurnoverScenarioError;
use necsim::TrustedOriginSampler;
use necsim::UniformTurnoverRate;
use necsim::UniformlySampleableHabitat;
use necsim::WyHash;
use necsim::OpenClosedUnitF64;
use necsim::default_migration_interval;
use necsim::default_panic_interval;
use necsim::default_progress_interval;

struct HardwareMathsCogs;

impl MathsCore for HardwareMathsCogs {
    fn add_nonneg(a: u64, b: u64) -> u64 {
        keep_sign_free(f64::from_bits(a) + f64::from_bits(b))
    }

    fn mul_nonneg(a: u64, b: u64) -> u64 {
        keep_sign_free(f64::from_bits(a) * f64::from_bits(b))
    }

    fn div_nonneg(a: u64, b: u64) -> u64 {
        keep_sign_free(f64::from_bits(a) / f64::from_bits(b))
    }

    fn neg_ln_unit(a: u64) -> u64 {
        keep_sign_free(-f64::from_bits(a).ln())
    }

    fn sub_nonneg(a: u64, b: u64) -> u64 {
        keep_sign_free(f64::from_bits(a) - f64::from_bits(b))
    }

    fn u64_to_f64(n: u64) -> u64 {
        keep_sign_free(n as f64)
    }

    fn floor_to_u64(a: u64) -> u64 {
        f64::from_bits(a).floor() as u64
    }
}

fn keep_sign_free(x: f64) -> u64 {
    if x == 0.0 {
        0
    } else {
        x.to_bits()
    }
}

fn habitat_2x3() -> InMemoryHabitat {
    InMemoryHabitat::try_new(vec![1, 0, 3, 2, 0, 4], 2, 3).unwrap()
}

#[test]
fn habitat_reports_capacities_and_total() {
    let habitat = habitat_2x3();
    assert_eq!(habitat.get_total_habitat(), OffByOneU64::new(10).unwrap());
    assert_eq!(
        habitat.get_extent(),
        LandscapeExtent::new(0, 0, 2, 3)
    );
    assert_eq!(habitat.get_habitat_at_location(&Location::new(0, 0)), 1);
    assert_eq!(habitat.get_habitat_at_location(&Location::new(1, 0)), 0);
    assert_eq!(habitat.get_habitat_at_location(&Location::new(0, 1)), 3);
    assert_eq!(habitat.get_habitat_at_location(&Location::new(1, 2)), 4);
    assert!(habitat.is_location_habitable(&Location::new(0, 1)));
    assert!(!habitat.is_location_habitable(&Location::new(1, 0)));
    assert!(!habitat.is_location_habitable(&Location::new(7, 7)));
    assert!(habitat.is_indexed_location_habitable(&IndexedLocation::new(
        Location::new(1, 2),
        3
    )));
    assert!(!habitat.is_indexed_location_habitable(&IndexedLocation::new(
        Location::new(1, 2),
        4
    )));

    // a grid with no habitable cell is rejected, as are wrong dimensions
    assert!(InMemoryHabitat::try_new(vec![0, 0], 2, 1).is_none());
    assert!(InMemoryHabitat::try_new(vec![1, 1, 1], 2, 1).is_none());
}

#[test]
fn slot_numbering_is_injective_and_invertible() {
    let habitat = habitat_2x3();
    let mut seen = Vec::new();
    for y in 0..3_u32 {
        for x in 0..2_u32 {
            let location = Location::new(x, y);
            let capacity = habitat.get_habitat_at_location(&location);
            for index in 0..capacity {
                let slot = IndexedLocation::new(location, index);
                let number = habitat.map_indexed_location_to_u64_injective(&slot);
                // injective: never seen before
                assert!(!seen.contains(&number));
                seen.push(number);
                // invertible: the number maps back to the same slot
                assert_eq!(habitat.index_to_indexed_location(number), slot);
            }
        }
    }
    // the numbering is exactly [0, total)
    assert_eq!(seen.len(), 10);
    for number in 0..10_u64 {
        assert!(seen.contains(&number));
    }
}

#[test]
fn uniform_habitat_sampling_yields_habitable_slots() {
    let habitat = habitat_2x3();
    let mut rng = WyHash::seed_from_u64(3);
    for _ in 0..1000 {
        let slot = habitat.sample_habitable_indexed_location(&mut rng);
        assert!(habitat.is_indexed_location_habitable(&slot));
    }
}

#[test]
fn turnover_map_rejects_zero_rate_on_habitable_cells() {
    let habitat = habitat_2x3();
    let nn = |x: f64| NonNegativeF64::new(x.to_bits()).unwrap();

    // zero turnover is fine exactly where there is no habitat
    let good = vec![nn(0.5), nn(0.0), nn(1.0), nn(2.0), nn(0.0), nn(0.25)];
    let rate = InMemoryTurnoverRate::new(good, &habitat).unwrap();
    assert_eq!(
        rate.get_turnover_rate_at_location(&Location::new(0, 1), &habitat),
        nn(1.0)
    );

    // zero turnover on a habitable cell is rejected
    let bad = vec![nn(0.5), nn(0.0), nn(0.0), nn(2.0), nn(0.0), nn(0.25)];
    assert_eq!(
        InMemoryTurnoverRate::new(bad, &habitat).unwrap_err(),
        InMemoryTurnoverRateError::ZeroTurnoverHabitat
    );
}

#[test]
fn scenario_assembly_rejects_empty_habitat() {
    let speciation = OpenClosedUnitF64::new(0.5_f64.to_bits()).unwrap();
    let turnover = PositiveF64::new(1.0_f64.to_bits()).unwrap();

    let cogs = SpatiallyExplicitUniformTurnoverScenario::new(
        vec![1, 2, 3, 4],
        2,
        2,
        turnover,
        speciation,
    )
    .unwrap();
    assert_eq!(cogs.habitat.width, 2);
    assert_eq!(cogs.turnover_rate, UniformTurnoverRate::new(turnover));

    assert_eq!(
        SpatiallyExplicitUniformTurnoverScenario::new(
            vec![0, 0, 0, 0],
            2,
            2,
            turnover,
            speciation
        )
        .unwrap_err(),
        SpatiallyExplicitUniformTurnoverScenarioError::EmptyHabitatMap
    );
}

#[test]
fn origin_sampler_walks_every_habitable_slot() {
    let habitat = habitat_2x3();
    let mut sampler = InMemoryOriginSampler::new(habitat, 1).unwrap();
    assert_eq!(sampler.full_upper_bound_size_hint(), 10);

    let mut count = 0;
    let mut references = Vec::new();
    while let Some(lineage) = sampler.next_origin() {
        assert!(sampler
            .habitat
            .is_indexed_location_habitable(&lineage.indexed_location));
        assert!(!references.contains(&lineage.global_reference));
        references.push(lineage.global_reference);
        count += 1;
        assert!(count <= 10);
    }
    assert_eq!(count, 10);

    // a stride of three keeps every third slot, and the hint knows it
    let mut sparse = InMemoryOriginSampler::new(habitat_2x3(), 3).unwrap();
    assert_eq!(sparse.full_upper_bound_size_hint(), 4);
    let mut sparse_count = 0;
    while sparse.next_origin().is_some() {
        sparse_count += 1;
        assert!(sparse_count <= 10);
    }
    assert_eq!(sparse_count, 4);
}

#[test]
fn fixed_event_time_sampler_primes_deterministically() {
    let habitat = habitat_2x3();
    let lambda = UniformTurnoverRate::new(PositiveF64::new(2.0_f64.to_bits()).unwrap());
    let sampler = FixedEventTimeSampler::default();
    let slot = IndexedLocation::new(Location::new(0, 1), 1);

    let mut rng_a = WyHash::seed_from_u64(17);
    let mut rng_b = WyHash::seed_from_u64(17);
    // consume the two streams differently before priming
    rng_a.sample_u64();
    for _ in 0..7 {
        rng_b.sample_u64();
    }

    let time = NonNegativeF64::new(1.25_f64.to_bits()).unwrap();
    let next_a = sampler.next_event_time_at_indexed_location_weakly_after::<HardwareMathsCogs, _>(
        &slot, time, &habitat, &mut rng_a, &lambda,
    );
    let next_b = sampler.next_event_time_at_indexed_location_weakly_after::<HardwareMathsCogs, _>(
        &slot, time, &habitat, &mut rng_b, &lambda,
    );

    // the lattice time is (floor(1.25 * 2) + 1) / 2 = 1.5
    assert_eq!(f64::from_bits(next_a.get()), 1.5);
    assert_eq!(next_a, next_b);
    // priming reset both streams to the same point
    assert_eq!(rng_a.sample_u64(), rng_b.sample_u64());

    // priming with a different slot diverges the stream
    let mut rng_c = WyHash::seed_from_u64(17);
    rng_c.prime_with(0, 1);
    let mut rng_d = WyHash::seed_from_u64(17);
    rng_d.prime_with(1, 1);
    assert_ne!(rng_c.sample_u64(), rng_d.sample_u64());
}

#[test]
fn monolithic_cogs_do_nothing() {
    let decomposition = MonolithicDecomposition::default();
    assert_eq!(decomposition.get_subdomain(), Partition::monolithic());
    assert_eq!(
        decomposition.map_location_to_subdomain_rank(&Location::new(3, 1), &habitat_2x3()),
        0
    );
    assert!(Partition::try_new(2, 2).is_none());
    assert_eq!(Partition::try_new(1, 2).unwrap().rank, 1);

    let mut entry = NeverImmigrationEntry::default();
    assert!(entry.peek_next_immigration().is_none());
    assert!(entry.next_optional_immigration().is_none());

    let mut exit = NeverEmigrationExit::default();
    let reference = necsim::GlobalLineageReference::new(8);
    let origin = IndexedLocation::new(Location::new(0, 0), 0);
    let target = Location::new(0, 1);
    let prior = NonNegativeF64::zero();
    let event = PositiveF64::one();
    assert_eq!(
        exit.optionally_emigrate(reference, origin, target, prior, event),
        Some((reference, origin, target, prior, event))
    );

    assert_eq!(default_migration_interval(), 100);
    assert_eq!(default_progress_interval(), 100);
    assert_eq!(default_panic_interval(), 200);

    let _ = GillespieAlgorithm::default();
    let _ = necsim::AliasSamplerRange::new(2, 5);
}
