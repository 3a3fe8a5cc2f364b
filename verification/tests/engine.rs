//! Tests for the store, the plugin resolver, the dispatcher and full ticks.

use atomecs::dispatch::{DispatcherBuilder, SystemAction};
use atomecs::simulation::{
    BuildError, Plugin, SimulationBuilder, SystemRegistration, SystemSetPlugin,
};
use atomecs::store::{
    CoolingLaserSamplerMasks, LaserSamplerMask, RateCoefficient, RateCoefficients, Transition,
    Vec3, World,
};
use atomecs::twolevel::TwoLevelPopulation;

fn plugin(name: &str, deps: &[&str]) -> SystemSetPlugin {
    SystemSetPlugin {
        plugin_name: name.to_string(),
        dependencies: deps.iter().map(|d| d.to_string()).collect(),
        systems: Vec::new(),
    }
}

#[test]
fn stale_handle_is_rejected_after_commit() {
    let mut world = World::new();
    let e = world.create_entity();
    assert!(world.insert_position(e, Vec3 { x: 1, y: 2, z: 3 }));
    assert!(world.is_alive(e));
    world.queue_delete(e);
    // Deletion is deferred: the entity stays fully readable until commit.
    assert!(world.is_alive(e));
    assert_eq!(world.get_position(e), Some(&Vec3 { x: 1, y: 2, z: 3 }));
    world.maintain();
    // Fully absent after the commit point.
    assert!(!world.is_alive(e));
    assert_eq!(world.get_position(e), None);
    assert!(!world.insert_position(e, Vec3 { x: 9, y: 9, z: 9 }));
}

#[test]
fn slot_reuse_bumps_generation() {
    let mut world = World::new();
    let e = world.create_entity();
    world.queue_delete(e);
    world.maintain();
    let f = world.create_entity();
    // The slot is reused under a fresh generation; the old handle never
    // aliases the new occupant.
    assert_eq!(f.index, e.index);
    assert_eq!(f.generation, e.generation + 1);
    assert!(world.is_alive(f));
    assert!(!world.is_alive(e));
    assert!(world.insert_position(f, Vec3 { x: 7, y: 0, z: 0 }));
    assert_eq!(world.get_position(e), None);
}

#[test]
fn plugin_missing_dependency_fails_build() {
    let mut builder = SimulationBuilder::new();
    let b = plugin("plugin-b", &["plugin-a"]);
    let r = builder.add_plugin(b);
    match r {
        Err(BuildError::MissingDependency { plugin: p, dependency: d }) => {
            assert_eq!(p, "plugin-b");
            assert_eq!(d, "plugin-a");
        }
        _ => panic!("expected a missing-dependency error"),
    }
}

#[test]
fn plugin_dependency_order_succeeds() {
    let mut builder = SimulationBuilder::new();
    assert!(builder.add_plugin(plugin("plugin-a", &[])).is_ok());
    assert!(builder.add_plugin(plugin("plugin-b", &["plugin-a"])).is_ok());
    assert!(builder.build().is_ok());
}

#[test]
fn plugin_name_method_reports_name() {
    let p = plugin("some-physics", &["other"]);
    assert_eq!(p.name(), "some-physics");
    assert_eq!(p.deps(), vec!["other".to_string()]);
}

#[test]
fn plugin_with_taken_system_name_fails() {
    let mut builder = SimulationBuilder::new();
    // "clear" is one of the seeded built-in stages.
    let p = SystemSetPlugin {
        plugin_name: "late".to_string(),
        dependencies: Vec::new(),
        systems: vec![SystemRegistration {
            name: "clear".to_string(),
            predecessors: Vec::new(),
            action: SystemAction::NoOp,
        }],
    };
    match builder.add_plugin(p) {
        Err(BuildError::DuplicateSystemName { name }) => assert_eq!(name, "clear"),
        _ => panic!("expected a duplicate-name error"),
    }
}

#[test]
fn duplicate_system_name_is_rejected() {
    let mut db = DispatcherBuilder::new();
    assert!(db.add(SystemAction::NoOp, "work".to_string(), Vec::new()).is_ok());
    match db.add(SystemAction::NoOp, "work".to_string(), Vec::new()) {
        Err(BuildError::DuplicateSystemName { name }) => assert_eq!(name, "work"),
        _ => panic!("expected a duplicate-name error"),
    }
}

#[test]
fn unknown_predecessor_is_rejected() {
    let mut db = DispatcherBuilder::new();
    match db.add(
        SystemAction::NoOp,
        "late".to_string(),
        vec!["missing".to_string()],
    ) {
        Err(BuildError::UnknownPredecessor { system, predecessor }) => {
            assert_eq!(system, "late");
            assert_eq!(predecessor, "missing");
        }
        _ => panic!("expected an unknown-predecessor error"),
    }
}

#[test]
fn conflicting_unordered_systems_are_rejected() {
    let mut db = DispatcherBuilder::new();
    // Both write the population storage in one region with no ordering.
    assert!(db
        .add(
            SystemAction::ComputeTwoLevelPopulations,
            "first".to_string(),
            Vec::new(),
        )
        .is_ok());
    assert!(db
        .add(
            SystemAction::ComputeTwoLevelPopulations,
            "second".to_string(),
            Vec::new(),
        )
        .is_ok());
    match db.build() {
        Err(BuildError::BorrowConflict { first, second }) => {
            assert_eq!(first, "first");
            assert_eq!(second, "second");
        }
        _ => panic!("expected a borrow-conflict error"),
    }
}

#[test]
fn conflicting_ordered_systems_are_accepted() {
    let mut db = DispatcherBuilder::new();
    assert!(db
        .add(
            SystemAction::ComputeTwoLevelPopulations,
            "first".to_string(),
            Vec::new(),
        )
        .is_ok());
    assert!(db
        .add(
            SystemAction::ComputeTwoLevelPopulations,
            "second".to_string(),
            vec!["first".to_string()],
        )
        .is_ok());
    assert!(db.build().is_ok());
}

#[test]
fn conflicting_systems_across_barrier_are_accepted() {
    let mut db = DispatcherBuilder::new();
    assert!(db
        .add(
            SystemAction::ComputeTwoLevelPopulations,
            "first".to_string(),
            Vec::new(),
        )
        .is_ok());
    db.add_barrier();
    assert!(db
        .add(
            SystemAction::ComputeTwoLevelPopulations,
            "second".to_string(),
            Vec::new(),
        )
        .is_ok());
    assert!(db.build().is_ok());
}

#[test]
fn barrier_ordering_reader_sees_post_write_value() {
    let mut builder = SimulationBuilder::new();
    // The built-in position integrator writes positions before the barrier;
    // the output system after the barrier reads them.
    let e = builder.world.create_entity();
    assert!(builder.world.insert_position(e, Vec3 { x: 1, y: 2, z: 3 }));
    assert!(builder.world.insert_velocity(e, Vec3 { x: 10, y: 0, z: 0 }));
    let mut sim = builder.build().expect("build failed");
    sim.step();
    let frames = sim.world.get_output();
    assert_eq!(frames.len(), 1);
    // The snapshot taken after the barrier holds the post-write position,
    // never the pre-tick value.
    assert_eq!(frames[0].positions[e.index], Some(Vec3 { x: 11, y: 2, z: 3 }));
    assert_eq!(frames[0].step, 0);
    assert_eq!(sim.world.get_step(), 1);
}

#[test]
fn deferred_deletion_mid_tick() {
    let mut builder = SimulationBuilder::new();
    let e = builder.world.create_entity();
    assert!(builder.world.insert_position(e, Vec3 { x: 5, y: 5, z: 5 }));
    // A plugin system queues the entity's deletion before the barrier.
    let destroyer = SystemSetPlugin {
        plugin_name: "destructor".to_string(),
        dependencies: Vec::new(),
        systems: vec![SystemRegistration {
            name: "destroy".to_string(),
            predecessors: Vec::new(),
            action: SystemAction::QueueDelete { index: e.index, generation: e.generation },
        }],
    };
    let mut sim = {
        let mut b = builder;
        assert!(b.add_plugin(destroyer).is_ok());
        b.build().expect("build failed")
    };
    sim.step();
    // The output system ran after the deletion was queued and before the
    // commit: it still saw the entity.
    let frames = sim.world.get_output();
    assert!(frames[0].positions[e.index].is_some());
    // Immediately after the end-of-tick commit the entity is fully absent.
    assert!(!sim.world.is_alive(e));
    assert_eq!(sim.world.get_position(e), None);
}

#[test]
fn step_counter_advances_once_per_tick() {
    let builder = SimulationBuilder::new();
    let mut sim = builder.build().expect("build failed");
    assert_eq!(sim.world.get_step(), 0);
    sim.step();
    sim.step();
    sim.step();
    assert_eq!(sim.world.get_step(), 3);
}

#[test]
fn end_to_end_two_active_lanes() {
    let gamma: u64 = 201_061_930;
    let mut builder = SimulationBuilder::new();
    let atom = builder.world.create_entity();
    let mut masks = vec![LaserSamplerMask { filled: false }; 8];
    masks[0] = LaserSamplerMask { filled: true };
    masks[1] = LaserSamplerMask { filled: true };
    assert!(builder.world.insert_transition(atom, Transition { gamma }));
    assert!(builder.world.insert_rate_coefficients(
        atom,
        RateCoefficients { contents: vec![RateCoefficient { rate: 1_000_000 }; 8] },
    ));
    assert!(builder
        .world
        .insert_masks(atom, CoolingLaserSamplerMasks { contents: masks }));
    assert!(builder
        .world
        .insert_population(atom, TwoLevelPopulation::default()));

    let cooling = SystemSetPlugin {
        plugin_name: "laser-cooling".to_string(),
        dependencies: Vec::new(),
        systems: vec![SystemRegistration {
            name: "calculate-twolevel".to_string(),
            predecessors: Vec::new(),
            action: SystemAction::ComputeTwoLevelPopulations,
        }],
    };
    let mut sim = {
        let mut b = builder;
        assert!(b.add_plugin(cooling).is_ok());
        b.build().expect("build failed")
    };
    sim.step();

    let pop = sim.world.get_population(atom).expect("entity not found");
    let excited = pop.excited_num as f64 / pop.denom as f64;
    let expected = 2.0e6 / (gamma as f64 + 4.0e6);
    assert!((excited - expected).abs() < 1e-5);
}

#[test]
fn integrate_velocity_runs_after_barrier() {
    let mut builder = SimulationBuilder::new();
    let e = builder.world.create_entity();
    assert!(builder.world.insert_position(e, Vec3 { x: 0, y: 0, z: 0 }));
    assert!(builder.world.insert_velocity(e, Vec3 { x: 1, y: 1, z: 1 }));
    assert!(builder.world.insert_force(e, Vec3 { x: 2, y: 0, z: 0 }));
    let mut sim = builder.build().expect("build failed");
    sim.step();
    // Position advanced by the pre-tick velocity; the force was cleared
    // before velocity integration, so the velocity is unchanged.
    assert_eq!(sim.world.get_position(e), Some(&Vec3 { x: 1, y: 1, z: 1 }));
    assert_eq!(sim.world.get_velocity(e), Some(&Vec3 { x: 1, y: 1, z: 1 }));
    assert_eq!(sim.world.get_force(e), Some(&Vec3 { x: 0, y: 0, z: 0 }));
}
