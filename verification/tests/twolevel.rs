//! Tests for the steady-state two-level population kernel.

use atomecs::store::{
    CoolingLaserSamplerMasks, LaserSamplerMask, RateCoefficient, RateCoefficients, Transition,
    World,
};
use atomecs::twolevel::{
    steady_state_population, sum_masked_rates, CalculateTwoLevelPopulationSystem,
    TwoLevelPopulation,
};
use atomecs::DEFAULT_BEAM_NUMBER;

/// Natural linewidth used for the strontium-like test species, in the common
/// rate unit.
const STRONTIUM_GAMMA: u64 = 201_061_930;

/// Natural linewidth used for the rubidium-like test species.
const RUBIDIUM_GAMMA: u64 = 38_117_088;

fn excited_fraction(p: &TwoLevelPopulation) -> f64 {
    p.excited_num as f64 / p.denom as f64
}

fn ground_fraction(p: &TwoLevelPopulation) -> f64 {
    p.ground_num as f64 / p.denom as f64
}

#[test]
fn test_calculate_twolevel_population_system() {
    let mut test_world = World::new();

    // this test runs with two lasers only and we have to tell this the mask
    let mut active_lasers = vec![LaserSamplerMask { filled: false }; DEFAULT_BEAM_NUMBER];
    active_lasers[0] = LaserSamplerMask { filled: true };
    active_lasers[1] = LaserSamplerMask { filled: true };

    let rc = RateCoefficient { rate: 1_000_000 };

    let atom1 = test_world.create_entity();
    assert!(test_world.insert_rate_coefficients(
        atom1,
        RateCoefficients { contents: vec![rc; DEFAULT_BEAM_NUMBER] },
    ));
    assert!(test_world.insert_transition(atom1, Transition { gamma: STRONTIUM_GAMMA }));
    assert!(test_world.insert_masks(
        atom1,
        CoolingLaserSamplerMasks { contents: active_lasers.clone() },
    ));
    assert!(test_world.insert_population(atom1, TwoLevelPopulation::default()));

    let system = CalculateTwoLevelPopulationSystem::default();
    system.run(&mut test_world);
    test_world.maintain();

    let mut sum_rates: f64 = 0.0;
    for active_laser in active_lasers.iter().take(DEFAULT_BEAM_NUMBER) {
        if active_laser.filled {
            sum_rates += 1_000_000.0;
        }
    }

    let pop = test_world.get_population(atom1).expect("entity not found");
    let expected = sum_rates / (STRONTIUM_GAMMA as f64 + 2.0 * sum_rates);
    assert!((excited_fraction(pop) - expected).abs() < 1e-5_f64);
}

#[test]
fn test_popn_high_intensity_limit() {
    let mut test_world = World::new();

    // this test runs with one laser only and we have to tell this the mask
    let mut active_lasers = vec![LaserSamplerMask { filled: false }; DEFAULT_BEAM_NUMBER];
    active_lasers[0] = LaserSamplerMask { filled: true };

    let rc = RateCoefficient { rate: 1_000_000_000 };

    let atom1 = test_world.create_entity();
    assert!(test_world.insert_rate_coefficients(
        atom1,
        RateCoefficients { contents: vec![rc; DEFAULT_BEAM_NUMBER] },
    ));
    assert!(test_world.insert_transition(atom1, Transition { gamma: RUBIDIUM_GAMMA }));
    assert!(test_world.insert_masks(
        atom1,
        CoolingLaserSamplerMasks { contents: active_lasers },
    ));
    assert!(test_world.insert_population(atom1, TwoLevelPopulation::default()));

    let system = CalculateTwoLevelPopulationSystem::default();
    system.run(&mut test_world);
    test_world.maintain();

    let pop = test_world.get_population(atom1).expect("entity not found");
    assert!((excited_fraction(pop) - 0.5).abs() < 0.01);
}

#[test]
fn population_range_concrete() {
    // S = 5, gamma = 3: excited = 5/13, ground = 8/13.
    let p = steady_state_population(5, 3);
    assert_eq!(p.excited_num, 5);
    assert_eq!(p.ground_num, 8);
    assert_eq!(p.denom, 13);
    // ground + excited == 1 exactly, and excited < 1/2.
    assert_eq!(p.ground_num + p.excited_num, p.denom);
    assert!(2 * p.excited_num < p.denom);
    let total = excited_fraction(&p) + ground_fraction(&p);
    assert!((total - 1.0).abs() < 1e-12);
}

#[test]
fn population_zero_rate_is_exactly_ground() {
    let p = steady_state_population(0, 77);
    assert_eq!(p.excited_num, 0);
    assert_eq!(p.ground_num, p.denom);
    assert_eq!(excited_fraction(&p), 0.0);
    assert_eq!(ground_fraction(&p), 1.0);
}

#[test]
fn population_high_intensity_close_to_half() {
    let gamma: u64 = 7;
    let s: u128 = 1_000_000_000 * gamma as u128;
    let p = steady_state_population(s, gamma);
    // 1/2 - excited < 1/100, and excited never exceeds 1/2.
    assert!(2 * p.excited_num < p.denom);
    assert!(100 * (p.denom - 2 * p.excited_num) < 2 * p.denom);
    assert!((excited_fraction(&p) - 0.5).abs() < 0.01);
}

#[test]
fn masked_sum_counts_only_filled_lanes() {
    let rates = vec![
        RateCoefficient { rate: 3 },
        RateCoefficient { rate: 5 },
        RateCoefficient { rate: 7 },
    ];
    let masks = vec![
        LaserSamplerMask { filled: true },
        LaserSamplerMask { filled: false },
        LaserSamplerMask { filled: true },
    ];
    assert_eq!(sum_masked_rates(&rates, &masks), 10);
}

#[test]
fn masked_lane_value_is_irrelevant() {
    // An inactive lane never contributes, even with an absurd stored rate.
    let masks = vec![
        LaserSamplerMask { filled: true },
        LaserSamplerMask { filled: false },
    ];
    let quiet = vec![RateCoefficient { rate: 1_000_000 }, RateCoefficient { rate: 0 }];
    let stale = vec![
        RateCoefficient { rate: 1_000_000 },
        RateCoefficient { rate: u64::MAX },
    ];
    assert_eq!(sum_masked_rates(&quiet, &masks), sum_masked_rates(&stale, &masks));
}

#[test]
fn masked_lane_does_not_change_kernel_result() {
    let masks = CoolingLaserSamplerMasks {
        contents: vec![
            LaserSamplerMask { filled: true },
            LaserSamplerMask { filled: false },
        ],
    };
    let mut results: Vec<TwoLevelPopulation> = Vec::new();
    for stale_rate in [0u64, 123u64, u64::MAX] {
        let mut world = World::new();
        let atom = world.create_entity();
        assert!(world.insert_transition(atom, Transition { gamma: STRONTIUM_GAMMA }));
        assert!(world.insert_masks(
            atom,
            CoolingLaserSamplerMasks { contents: masks.contents.clone() },
        ));
        assert!(world.insert_rate_coefficients(
            atom,
            RateCoefficients {
                contents: vec![
                    RateCoefficient { rate: 1_000_000 },
                    RateCoefficient { rate: stale_rate },
                ],
            },
        ));
        assert!(world.insert_population(atom, TwoLevelPopulation::default()));
        CalculateTwoLevelPopulationSystem::default().run(&mut world);
        results.push(*world.get_population(atom).expect("entity not found"));
    }
    assert_eq!(results[0], results[1]);
    assert_eq!(results[0], results[2]);
}

#[test]
fn population_default_is_uncomputed_sentinel() {
    let p = TwoLevelPopulation::default();
    assert_eq!(p.denom, 0);
    assert_eq!(p.ground_num, 0);
    assert_eq!(p.excited_num, 0);
}

#[test]
fn calculate_ground_and_excited_states() {
    let mut p = steady_state_population(5, 3);
    p.ground_num = 0;
    p.calculate_ground_state();
    assert_eq!(p.ground_num, 8);
    p.excited_num = 0;
    p.calculate_excited_state();
    assert_eq!(p.excited_num, 5);
}

#[test]
fn kernel_all_lanes_inactive_gives_exact_ground_state() {
    let mut world = World::new();
    let atom = world.create_entity();
    assert!(world.insert_transition(atom, Transition { gamma: RUBIDIUM_GAMMA }));
    assert!(world.insert_rate_coefficients(
        atom,
        RateCoefficients { contents: vec![RateCoefficient { rate: 42 }; DEFAULT_BEAM_NUMBER] },
    ));
    assert!(world.insert_masks(
        atom,
        CoolingLaserSamplerMasks {
            contents: vec![LaserSamplerMask { filled: false }; DEFAULT_BEAM_NUMBER],
        },
    ));
    assert!(world.insert_population(atom, TwoLevelPopulation::default()));
    CalculateTwoLevelPopulationSystem::default().run(&mut world);
    let pop = world.get_population(atom).expect("entity not found");
    // S = 0 exactly: excited = 0 and ground = 1, exactly.
    assert_eq!(pop.excited_num, 0);
    assert_eq!(pop.ground_num, pop.denom);
    assert_eq!(pop.denom, RUBIDIUM_GAMMA as u128);
}

#[test]
fn kernel_skips_entities_missing_components() {
    let mut world = World::new();
    let atom = world.create_entity();
    // Rates and masks but no transition: the population must stay untouched.
    assert!(world.insert_rate_coefficients(
        atom,
        RateCoefficients { contents: vec![RateCoefficient { rate: 4 }] },
    ));
    assert!(world.insert_masks(
        atom,
        CoolingLaserSamplerMasks { contents: vec![LaserSamplerMask { filled: true }] },
    ));
    assert!(world.insert_population(atom, TwoLevelPopulation::default()));
    CalculateTwoLevelPopulationSystem::default().run(&mut world);
    let pop = world.get_population(atom).expect("entity not found");
    assert_eq!(pop.denom, 0);
}
