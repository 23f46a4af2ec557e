//! End-to-end simulation scenarios: trivial coalescence, guaranteed
//! speciation, pause/resume equivalence, determinism, restart fix-up,
//! and the two-partition migration balance.

use necsim::ClosedUnitF64;
use necsim::InMemoryCumulativeDispersalSampler;
use necsim::GlobalLineageReference;
use necsim::IndexedLocation;
use necsim::InMemoryHabitat;
use necsim::Lineage;
use necsim::LineageInteraction;
use necsim::Location;
use necsim::MathsCore;
use necsim::MigratingLineage;
use necsim::NonNegativeF64;
use necsim::PackedEvent;
use necsim::PositiveF64;
use necsim::RestartFixUpStrategy;
use necsim::Simulation;
use necsim::Status;
use necsim::UniformSpeciationProbability;
use necsim::UniformTurnoverRate;
use necsim::WyHash;
use necsim::TieBreaker;
use necsim::apply_fixup_strategy;
use necsim::decide_immigration_wins;
use necsim::uniform_fixup_dispersal;
use necsim::ExceptionalLineage;
use necsim::OutOfHabitatStrategy;
use necsim::SplitExceptionalLineages;

/// The hardware floating-point unit, on bit patterns.
struct HardwareMaths;

fn canonical(x: f64) -> u64 {
    if x == 0.0 {
        0
    } else {
        x.to_bits()
    }
}

impl MathsCore for HardwareMaths {
    fn add_nonneg(a: u64, b: u64) -> u64 {
        canonical(f64::from_bits(a) + f64::from_bits(b))
    }

    fn mul_nonneg(a: u64, b: u64) -> u64 {
        canonical(f64::from_bits(a) * f64::from_bits(b))
    }

    fn div_nonneg(a: u64, b: u64) -> u64 {
        canonical(f64::from_bits(a) / f64::from_bits(b))
    }

    fn neg_ln_unit(a: u64) -> u64 {
        canonical(-f64::from_bits(a).ln())
    }

    fn sub_nonneg(a: u64, b: u64) -> u64 {
        canonical(f64::from_bits(a) - f64::from_bits(b))
    }

    fn u64_to_f64(n: u64) -> u64 {
        canonical(n as f64)
    }

    fn floor_to_u64(a: u64) -> u64 {
        f64::from_bits(a).floor() as u64
    }
}

type Sim = Simulation<HardwareMaths, WyHash>;

fn positive(x: f64) -> PositiveF64 {
    PositiveF64::new(x.to_bits()).unwrap()
}

fn closed_unit(x: f64) -> ClosedUnitF64 {
    ClosedUnitF64::new(x.to_bits()).unwrap()
}

/// A uniform dispersal kernel: every habitable cell is targeted with
/// the same raw weight, so only the capacity weighting differentiates.
fn uniform_dispersal(habitat: &InMemoryHabitat) -> InMemoryCumulativeDispersalSampler {
    let area = habitat.habitat.len();
    let entries: Vec<NonNegativeF64> = (0..area * area)
        .map(|i| {
            let target = i % area;
            let weight: f64 = if habitat.habitat[target] > 0 { 1.0 } else { 0.0 };
            NonNegativeF64::new(weight.to_bits()).unwrap()
        })
        .collect();
    InMemoryCumulativeDispersalSampler::new::<HardwareMaths>(&entries, habitat).unwrap()
}

fn lineage(id: u64, x: u32, y: u32, index: u32) -> Lineage {
    Lineage::new(
        GlobalLineageReference::new(id),
        IndexedLocation::new(Location::new(x, y), index),
    )
}

fn build(
    habitat_map: Vec<u32>,
    width: u32,
    height: u32,
    lambda: f64,
    nu: f64,
    seed: u64,
    lineages: Vec<Lineage>,
) -> (Sim, Vec<ExceptionalLineage>) {
    let habitat = InMemoryHabitat::try_new(habitat_map, width, height).unwrap();
    let dispersal = uniform_dispersal(&habitat);
    Sim::resume(
        habitat,
        dispersal,
        UniformTurnoverRate::new(positive(lambda)),
        UniformSpeciationProbability::new(closed_unit(nu)),
        WyHash::seed_from_u64(seed),
        lineages,
        NonNegativeF64::zero(),
        0,
        1,
    )
}

fn count_coalescences(log: &[PackedEvent]) -> usize {
    log.iter()
        .filter(|e| match e {
            PackedEvent::Dispersal(d) => {
                matches!(d.interaction, LineageInteraction::Coalescence(_))
            }
            PackedEvent::Speciation(_) => false,
        })
        .count()
}

fn count_speciations(log: &[PackedEvent]) -> usize {
    log.iter()
        .filter(|e| matches!(e, PackedEvent::Speciation(_)))
        .count()
}

#[test]
fn trivial_coalescence_on_single_cell() {
    // one cell of capacity two, no speciation: the two lineages must meet
    let (mut sim, exceptional) = build(
        vec![2],
        1,
        1,
        1.0,
        0.0,
        42,
        vec![lineage(1, 0, 0, 0), lineage(2, 0, 0, 1)],
    );
    assert!(exceptional.is_empty());

    // with no speciation the lone survivor would wander forever, so the
    // run is stepped under a budget until the coalescence has happened
    let mut log = Vec::new();
    let mut no_emigrants = Vec::new();
    let (time, steps, _) =
        sim.simulate_incremental_early_stop(None, Some(64), &mut log, &mut no_emigrants);

    // exactly one coalescence leaves one survivor
    assert_eq!(count_coalescences(&log), 1);
    assert_eq!(count_speciations(&log), 0);
    assert_eq!(sim.get_balanced_remaining_work(), 1);
    assert!(log.len() as u64 <= steps);
    assert!(f64::from_bits(time.get()) > 0.0);
    // the coalescence names the surviving partner and stays on the cell
    let survivor = log
        .iter()
        .find_map(|e| match e {
            PackedEvent::Dispersal(d) => match d.interaction {
                LineageInteraction::Coalescence(parent) => Some((d, parent)),
                _ => None,
            },
            PackedEvent::Speciation(_) => None,
        })
        .unwrap();
    assert_eq!(survivor.0.target.location, Location::new(0, 0));
    assert_ne!(survivor.0.global_lineage_reference, survivor.1);
}

#[test]
fn guaranteed_speciation_ends_every_lineage() {
    // speciation probability one: each lineage's first event speciates
    let (mut sim, exceptional) = build(
        vec![1, 1, 2, 3],
        2,
        2,
        1.0,
        1.0,
        7,
        vec![lineage(1, 0, 0, 0), lineage(2, 1, 0, 0), lineage(3, 0, 1, 1)],
    );
    assert!(exceptional.is_empty());

    let mut log = Vec::new();
    let (_, steps, _) = sim.simulate(&mut log);

    assert_eq!(steps, 3);
    assert_eq!(count_speciations(&log), 3);
    assert_eq!(count_coalescences(&log), 0);
    assert!(sim.is_done());
    assert_eq!(sim.get_balanced_remaining_work(), 0);
}

#[test]
fn per_lineage_event_times_strictly_increase() {
    let (mut sim, _) = build(
        vec![3, 1, 4, 1, 5, 9],
        3,
        2,
        1.0,
        0.125,
        1234,
        vec![
            lineage(1, 0, 0, 0),
            lineage(2, 0, 0, 1),
            lineage(3, 1, 0, 0),
            lineage(4, 2, 0, 2),
            lineage(5, 0, 1, 0),
        ],
    );
    let mut log = Vec::new();
    sim.simulate(&mut log);
    assert!(!log.is_empty());

    for id in 1..=5_u64 {
        let reference = GlobalLineageReference::new(id);
        let mut previous: Option<(u64, u64)> = None;
        for event in &log {
            let (r, prior, time) = match event {
                PackedEvent::Speciation(e) => {
                    (e.global_lineage_reference, e.prior_time.get(), e.event_time.get())
                }
                PackedEvent::Dispersal(e) => {
                    (e.global_lineage_reference, e.prior_time.get(), e.event_time.get())
                }
            };
            if r != reference {
                continue;
            }
            // times strictly increase and prior times chain exactly
            assert!(f64::from_bits(prior) < f64::from_bits(time));
            if let Some((_, previous_time)) = previous {
                assert_eq!(prior, previous_time);
            }
            previous = Some((prior, time));
        }
    }
}

#[test]
fn identical_seeds_give_identical_logs() {
    let make = || {
        build(
            vec![2, 0, 1, 4],
            2,
            2,
            0.5,
            0.25,
            99,
            vec![lineage(1, 0, 0, 0), lineage(2, 1, 1, 3)],
        )
    };
    let (mut a, _) = make();
    let (mut b, _) = make();
    let mut log_a = Vec::new();
    let mut log_b = Vec::new();
    a.simulate(&mut log_a);
    b.simulate(&mut log_b);
    assert!(!log_a.is_empty());
    assert_eq!(log_a, log_b);
}

#[test]
fn pause_and_resume_replays_the_same_log() {
    let make = || {
        build(
            vec![2, 1, 1, 2],
            2,
            2,
            1.0,
            0.0625,
            2024,
            vec![
                lineage(1, 0, 0, 0),
                lineage(2, 0, 0, 1),
                lineage(3, 1, 1, 0),
                lineage(4, 1, 1, 1),
            ],
        )
    };
    // the uninterrupted run
    let (mut whole, _) = make();
    let mut log_whole = Vec::new();
    let (final_time, _, _) = whole.simulate(&mut log_whole);

    // the same run paused midway, then resumed in place
    let midway = f64::from_bits(final_time.get()) / 2.0;
    let (mut paused, _) = make();
    let mut log_paused = Vec::new();
    let mut no_emigrants = Vec::new();
    paused.simulate_incremental_early_stop(
        Some(NonNegativeF64::new(midway.to_bits()).unwrap()),
        None,
        &mut log_paused,
        &mut no_emigrants,
    );
    paused.simulate_incremental_early_stop(None, None, &mut log_paused, &mut no_emigrants);

    assert_eq!(log_whole, log_paused);
    assert!(no_emigrants.is_empty());

    // a step-quota pause replays identically as well
    let (mut stepped, _) = make();
    let mut log_stepped = Vec::new();
    let mut quota_steps = 0;
    loop {
        let (_, steps, status) = stepped.simulate_incremental_early_stop(
            None,
            Some(1),
            &mut log_stepped,
            &mut no_emigrants,
        );
        quota_steps += steps;
        if matches!(status, Status::Done) {
            break;
        }
        assert!(quota_steps < 100_000);
    }
    assert_eq!(log_whole, log_stepped);
}

#[test]
fn fixup_relocates_out_of_habitat_lineages() {
    let habitat = InMemoryHabitat::try_new(vec![1, 1, 1, 0], 2, 2).unwrap();
    let restart_at = positive(3.0);

    // one lineage sits outside the habitable landscape
    let (_, exceptional) = build(
        vec![1, 1, 1, 0],
        2,
        2,
        1.0,
        0.0,
        5,
        vec![lineage(1, 0, 0, 0), lineage(2, 5, 5, 0)],
    );
    assert_eq!(exceptional.len(), 1);
    assert!(matches!(exceptional[0], ExceptionalLineage::OutOfHabitat(_)));

    // an all-abort strategy propagates the exceptional lineages
    let split = ExceptionalLineage::split_vec(exceptional.clone());
    let aborted = apply_fixup_strategy(split, RestartFixUpStrategy::default(), restart_at);
    assert!(aborted.is_err());
    assert_eq!(aborted.unwrap_err().len(), 1);

    // a uniform-dispersal strategy queues the lineage for relocation
    let mut strategy = RestartFixUpStrategy::default();
    strategy.out_of_habitat = OutOfHabitatStrategy::UniformDispersal;
    let split = ExceptionalLineage::split_vec(exceptional);
    let plan = apply_fixup_strategy(split, strategy, restart_at).unwrap();
    assert_eq!(plan.fixable_lineages.len(), 1);
    assert!(plan.coalescence_events.is_empty());

    // the forced dispersal lands on a habitable slot at the restart time
    let mut rng = WyHash::seed_from_u64(11);
    let (relocated, events) =
        uniform_fixup_dispersal(&habitat, &mut rng, plan.fixable_lineages, restart_at);
    assert_eq!(relocated.len(), 1);
    assert_eq!(events.len(), 1);
    assert!(habitat.is_indexed_location_habitable(&relocated[0].indexed_location));
    assert_eq!(events[0].event_time.get(), restart_at.get());
    assert_eq!(relocated[0].last_event_time.get(), restart_at.get());
    assert_eq!(
        events[0].global_lineage_reference,
        GlobalLineageReference::new(2)
    );

    // the run then completes from the fixed-up state: the synthetic
    // record opens the lineage's history, and everything after it is
    // strictly later than the restart time
    let mut log: Vec<PackedEvent> = events.into_iter().map(PackedEvent::Dispersal).collect();
    let lineages = relocated;
    let dispersal = uniform_dispersal(&habitat);
    let (mut sim, exceptional) = Sim::resume(
        habitat,
        dispersal,
        UniformTurnoverRate::new(positive(1.0)),
        UniformSpeciationProbability::new(closed_unit(1.0)),
        WyHash::seed_from_u64(21),
        lineages,
        restart_at.into_non_negative(),
        0,
        1,
    );
    assert!(exceptional.is_empty());
    let first_records = log.len();
    sim.simulate(&mut log);
    assert!(sim.is_done());
    for event in &log[first_records..] {
        let time = match event {
            PackedEvent::Speciation(e) => e.event_time.get(),
            PackedEvent::Dispersal(e) => e.event_time.get(),
        };
        assert!(f64::from_bits(time) > f64::from_bits(restart_at.get()));
    }
}

#[test]
fn split_exceptional_lineages_by_class() {
    let exceptional = vec![
        ExceptionalLineage::OutOfDeme(lineage(1, 0, 0, 5)),
        ExceptionalLineage::Coalescence {
            child: lineage(2, 0, 0, 0),
            parent: GlobalLineageReference::new(9),
        },
        ExceptionalLineage::OutOfHabitat(lineage(3, 9, 9, 0)),
        ExceptionalLineage::OutOfDeme(lineage(4, 1, 0, 7)),
    ];
    let SplitExceptionalLineages {
        coalescence,
        out_of_deme,
        out_of_habitat,
    } = ExceptionalLineage::split_vec(exceptional);
    assert_eq!(coalescence.len(), 1);
    assert_eq!(out_of_deme.len(), 2);
    assert_eq!(out_of_habitat.len(), 1);
    assert_eq!(coalescence[0].1, GlobalLineageReference::new(9));
    assert_eq!(out_of_deme[0].global_reference, GlobalLineageReference::new(1));
    assert_eq!(out_of_deme[1].global_reference, GlobalLineageReference::new(4));
}

#[test]
fn resume_reports_every_exceptional_lineage_at_once() {
    let (sim, exceptional) = build(
        vec![1, 1, 1, 1],
        2,
        2,
        1.0,
        0.0,
        1,
        vec![
            lineage(1, 0, 0, 0),
            lineage(2, 0, 0, 0),  // collides with the first
            lineage(3, 1, 0, 7),  // index beyond the deme capacity
            lineage(4, 8, 8, 0),  // outside the habitat
            lineage(5, 1, 1, 0),
        ],
    );
    assert_eq!(exceptional.len(), 3);
    assert!(matches!(
        exceptional[0],
        ExceptionalLineage::Coalescence { .. }
    ));
    assert!(matches!(exceptional[1], ExceptionalLineage::OutOfDeme(_)));
    assert!(matches!(exceptional[2], ExceptionalLineage::OutOfHabitat(_)));
    assert_eq!(sim.get_balanced_remaining_work(), 2);
}

#[test]
fn two_partition_migration_balances_to_zero() {
    // a 2x2 landscape split into two ranks by cell number
    let habitat_map = vec![2, 2, 2, 2];
    let make = |rank: u32, ids: Vec<Lineage>| {
        let habitat = InMemoryHabitat::try_new(habitat_map.clone(), 2, 2).unwrap();
        let dispersal = uniform_dispersal(&habitat);
        let (sim, exceptional) = Sim::resume(
            habitat,
            dispersal,
            UniformTurnoverRate::new(positive(1.0)),
            UniformSpeciationProbability::new(closed_unit(0.125)),
            WyHash::seed_from_u64(1000 + rank as u64),
            ids,
            NonNegativeF64::zero(),
            rank,
            2,
        );
        assert!(exceptional.is_empty());
        sim
    };
    let mut left = make(0, vec![lineage(1, 0, 0, 0), lineage(2, 1, 0, 0)]);
    let mut right = make(1, vec![lineage(3, 0, 1, 0), lineage(4, 1, 1, 0)]);

    let mut log_left = Vec::new();
    let mut log_right = Vec::new();
    let mut rounds = 0;
    loop {
        let mut from_left = Vec::new();
        let mut from_right = Vec::new();
        left.simulate_incremental_early_stop(None, Some(16), &mut log_left, &mut from_left);
        right.simulate_incremental_early_stop(None, Some(16), &mut log_right, &mut from_right);

        // at the synchronisation point the wrapping balances cancel out,
        // corrected for the emigrants still in flight
        let in_flight = (from_left.len() + from_right.len()) as u64;
        assert_eq!(
            left.migration_balance
                .wrapping_add(right.migration_balance)
                .wrapping_add(in_flight),
            0
        );

        for migrant in from_left {
            right.immigration_entry.push(retarget(migrant));
        }
        for migrant in from_right {
            left.immigration_entry.push(retarget(migrant));
        }

        if left.is_done() && right.is_done() {
            break;
        }
        rounds += 1;
        assert!(rounds < 100_000, "the two partitions should finish");
    }

    assert_eq!(
        left.migration_balance.wrapping_add(right.migration_balance),
        0
    );
    // every lineage is accounted for: speciations and coalescences on
    // both partitions cover all four starting lineages
    let ended = count_speciations(&log_left)
        + count_speciations(&log_right)
        + count_coalescences(&log_left)
        + count_coalescences(&log_right);
    assert_eq!(ended, 4);
}

/// Hands a migrant through unchanged; the receiving engine re-resolves
/// its coalescence from the carried draw.
fn retarget(migrant: MigratingLineage) -> MigratingLineage {
    migrant
}

#[test]
fn immigration_arbitration_follows_the_tie_break() {
    let early = positive(1.0);
    let late = positive(2.0);

    // no pending immigration never wins; no local candidate always loses
    assert!(!decide_immigration_wins(None, Some(early)));
    assert!(!decide_immigration_wins(None, None));
    assert!(decide_immigration_wins(Some((early, TieBreaker::PreferLocal)), None));

    // a strictly earlier immigration wins whatever the tie-breaker
    assert!(decide_immigration_wins(Some((early, TieBreaker::PreferLocal)), Some(late)));
    assert!(decide_immigration_wins(Some((early, TieBreaker::PreferImmigrant)), Some(late)));
    // a strictly later one loses
    assert!(!decide_immigration_wins(Some((late, TieBreaker::PreferImmigrant)), Some(early)));
    // an exact tie goes by the migrant's carried tie-breaker
    assert!(decide_immigration_wins(Some((early, TieBreaker::PreferImmigrant)), Some(early)));
    assert!(!decide_immigration_wins(Some((early, TieBreaker::PreferLocal)), Some(early)));
}

#[test]
fn zero_step_pause_freezes_the_whole_state() {
    let (mut sim, _) = build(
        vec![2, 1],
        2,
        1,
        1.0,
        0.25,
        4242,
        vec![lineage(1, 0, 0, 0), lineage(2, 1, 0, 0)],
    );
    let mut log = Vec::new();
    let mut emigrants = Vec::new();

    // a deadline at time zero pauses before the first commitment and
    // rolls the random stream back, so a later full run is unchanged
    let (_, steps, status) = sim.simulate_incremental_early_stop(
        Some(NonNegativeF64::zero()),
        None,
        &mut log,
        &mut emigrants,
    );
    assert_eq!(steps, 0);
    assert!(matches!(status, Status::Paused));
    assert!(log.is_empty());
    assert_eq!(sim.get_balanced_remaining_work(), 2);

    let (mut fresh, _) = build(
        vec![2, 1],
        2,
        1,
        1.0,
        0.25,
        4242,
        vec![lineage(1, 0, 0, 0), lineage(2, 1, 0, 0)],
    );
    let mut log_paused = Vec::new();
    let mut log_fresh = Vec::new();
    sim.simulate(&mut log_paused);
    fresh.simulate(&mut log_fresh);
    assert_eq!(log_paused, log_fresh);
}

#[test]
fn an_exhausted_simulation_reports_done_in_zero_steps() {
    let habitat = InMemoryHabitat::try_new(vec![1], 1, 1).unwrap();
    let dispersal = uniform_dispersal(&habitat);
    let (mut sim, exceptional) = Sim::resume(
        habitat,
        dispersal,
        UniformTurnoverRate::new(positive(1.0)),
        UniformSpeciationProbability::new(closed_unit(0.5)),
        WyHash::seed_from_u64(5),
        Vec::new(),
        NonNegativeF64::zero(),
        0,
        1,
    );
    assert!(exceptional.is_empty());
    let mut log = Vec::new();
    let (_, steps, status) = sim.simulate(&mut log);
    assert_eq!(steps, 0);
    assert!(matches!(status, Status::Done));
    assert!(log.is_empty());
}
