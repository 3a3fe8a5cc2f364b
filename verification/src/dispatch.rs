//! The dispatcher: a built, immutable execution graph of named systems with
//! explicit predecessors and barriers, driving one simulation tick.
//!
//! Execution order across barriers is total; within one barrier-delimited
//! region it is unspecified, but every system's effect is a function of the
//! store alone and conflicting borrow sets are rejected when the graph is
//! built, so the dispatched results equal the sequential fold of the systems
//! in registration order, which is the model used throughout.

use crate::simulation::BuildError;
use crate::store::{
    lemma_alive_not_free, Entity, OutputRecord, OutputRecordModel, Vec3, World, WorldModel,
};
use crate::twolevel::{compute_two_level_populations, kernel_model};
use vstd::prelude::*;

verus! {

/// The work a named system performs on the store when its turn comes.
///
/// The engine's own systems are listed here; a system contributed by an
/// external physics module that the engine does not model registers as
/// [`SystemAction::NoOp`], which still takes part in naming, ordering and
/// barrier placement.
#[derive(Clone, Copy, Debug, PartialEq, Eq, Structural)]
pub enum SystemAction {
    /// Advance every live entity's position by its velocity.
    IntegratePosition,
    /// Zero every live entity's accumulated force.
    ClearForces,
    /// Advance every live entity's velocity by its accumulated force.
    IntegrateVelocity,
    /// Append one output frame: the tick counter and a snapshot of the
    /// position storage.
    RecordOutput,
    /// Recompute the steady-state two-level population of every qualifying
    /// entity from its masked per-lane rates.
    ComputeTwoLevelPopulations,
    /// Queue one entity for deletion at the end-of-tick commit.
    QueueDelete { index: usize, generation: u64 },
    /// A system whose work is defined outside the engine.
    NoOp,
}

/// Borrow bit for the position storage.
pub const POSITION_BORROW: u32 = 1;

/// Borrow bit for the velocity storage.
pub const VELOCITY_BORROW: u32 = 2;

/// Borrow bit for the force storage.
pub const FORCE_BORROW: u32 = 4;

/// Borrow bit for the transition storage.
pub const TRANSITION_BORROW: u32 = 8;

/// Borrow bit for the rate-coefficient storage.
pub const RATES_BORROW: u32 = 16;

/// Borrow bit for the sampler-mask storage.
pub const MASKS_BORROW: u32 = 32;

/// Borrow bit for the two-level population storage.
pub const POPULATION_BORROW: u32 = 64;

/// Borrow bit for the entity allocator and its deletion queue.
pub const ENTITY_META_BORROW: u32 = 128;

/// Borrow bit for the output frame log.
pub const OUTPUT_BORROW: u32 = 256;

/// The set of storages a system reads, declared statically as a bitmask.
pub open spec fn spec_action_reads(a: SystemAction) -> u32 {
    match a {
        SystemAction::IntegratePosition => VELOCITY_BORROW,
        SystemAction::ClearForces => 0,
        SystemAction::IntegrateVelocity => FORCE_BORROW,
        SystemAction::RecordOutput => POSITION_BORROW,
        SystemAction::ComputeTwoLevelPopulations => TRANSITION_BORROW | RATES_BORROW
            | MASKS_BORROW,
        SystemAction::QueueDelete { .. } => 0,
        SystemAction::NoOp => 0,
    }
}

/// The set of storages a system writes, declared statically as a bitmask.
pub open spec fn spec_action_writes(a: SystemAction) -> u32 {
    match a {
        SystemAction::IntegratePosition => POSITION_BORROW,
        SystemAction::ClearForces => FORCE_BORROW,
        SystemAction::IntegrateVelocity => VELOCITY_BORROW,
        SystemAction::RecordOutput => OUTPUT_BORROW,
        SystemAction::ComputeTwoLevelPopulations => POPULATION_BORROW,
        SystemAction::QueueDelete { .. } => ENTITY_META_BORROW,
        SystemAction::NoOp => 0,
    }
}

/// Declared borrow sets of the system, as read and write bitmasks.
pub fn action_borrows(a: &SystemAction) -> (r: (u32, u32))
    ensures
        r.0 == spec_action_reads(*a),
        r.1 == spec_action_writes(*a),
{
    match a {
        SystemAction::IntegratePosition => (VELOCITY_BORROW, POSITION_BORROW),
        SystemAction::ClearForces => (0, FORCE_BORROW),
        SystemAction::IntegrateVelocity => (FORCE_BORROW, VELOCITY_BORROW),
        SystemAction::RecordOutput => (POSITION_BORROW, OUTPUT_BORROW),
        SystemAction::ComputeTwoLevelPopulations => (
            TRANSITION_BORROW | RATES_BORROW | MASKS_BORROW,
            POPULATION_BORROW,
        ),
        SystemAction::QueueDelete { .. } => (0, ENTITY_META_BORROW),
        SystemAction::NoOp => (0, 0),
    }
}

/// Two systems' declared borrow sets conflict: one writes a storage the
/// other reads or writes. Conflicting systems may not run concurrently.
pub open spec fn spec_actions_conflict(a: SystemAction, b: SystemAction) -> bool {
    ||| spec_action_writes(a) & (spec_action_reads(b) | spec_action_writes(b)) != 0
    ||| spec_action_writes(b) & spec_action_reads(a) != 0
}

/// Exec check of [`spec_actions_conflict`].
pub fn actions_conflict(a: &SystemAction, b: &SystemAction) -> (r: bool)
    ensures
        r == spec_actions_conflict(*a, *b),
{
    let (ra, wa) = action_borrows(a);
    let (rb, wb) = action_borrows(b);
    (wa & (rb | wb)) != 0 || (wb & ra) != 0
}

/// Componentwise wrapping addition of two integer vectors.
pub open spec fn v3_wrapping_add(a: Vec3, b: Vec3) -> Vec3 {
    Vec3 { x: a.x.wrapping_add(b.x), y: a.y.wrapping_add(b.y), z: a.z.wrapping_add(b.z) }
}

/// Exec form of [`v3_wrapping_add`].
pub fn vec3_wrapping_add(a: Vec3, b: Vec3) -> (r: Vec3)
    ensures
        r == v3_wrapping_add(a, b),
{
    Vec3 { x: a.x.wrapping_add(b.x), y: a.y.wrapping_add(b.y), z: a.z.wrapping_add(b.z) }
}

/// Position integration at one slot: a live entity with a position and a
/// velocity advances its position by the velocity.
pub open spec fn integrate_position_slot(w: WorldModel, i: int) -> Option<Vec3> {
    match (w.positions[i], w.velocities[i]) {
        (Some(p), Some(v)) => if w.alive[i] {
            Some(v3_wrapping_add(p, v))
        } else {
            Some(p)
        },
        _ => w.positions[i],
    }
}

/// Force clearing at one slot: a live entity's accumulated force is zeroed.
pub open spec fn clear_force_slot(w: WorldModel, i: int) -> Option<Vec3> {
    match w.forces[i] {
        Some(f) => if w.alive[i] {
            Some(Vec3 { x: 0, y: 0, z: 0 })
        } else {
            Some(f)
        },
        None => None,
    }
}

/// Velocity integration at one slot: a live entity with a velocity and a
/// force advances its velocity by the force.
pub open spec fn integrate_velocity_slot(w: WorldModel, i: int) -> Option<Vec3> {
    match (w.velocities[i], w.forces[i]) {
        (Some(v), Some(f)) => if w.alive[i] {
            Some(v3_wrapping_add(v, f))
        } else {
            Some(v)
        },
        _ => w.velocities[i],
    }
}

/// The effect of one system on the store model.
pub open spec fn apply_action_model(w: WorldModel, a: SystemAction) -> WorldModel {
    match a {
        SystemAction::IntegratePosition => WorldModel {
            positions: Seq::new(w.positions.len(), |i: int| integrate_position_slot(w, i)),
            ..w
        },
        SystemAction::ClearForces => WorldModel {
            forces: Seq::new(w.forces.len(), |i: int| clear_force_slot(w, i)),
            ..w
        },
        SystemAction::IntegrateVelocity => WorldModel {
            velocities: Seq::new(w.velocities.len(), |i: int| integrate_velocity_slot(w, i)),
            ..w
        },
        SystemAction::RecordOutput => WorldModel {
            output: w.output.push(OutputRecordModel { step: w.step, positions: w.positions }),
            ..w
        },
        SystemAction::ComputeTwoLevelPopulations => kernel_model(w),
        SystemAction::QueueDelete { index, generation } => WorldModel {
            pending: w.pending.push(Entity { index, generation }),
            ..w
        },
        SystemAction::NoOp => w,
    }
}

/// Advance every live entity's position by its velocity.
fn integrate_positions(world: &mut World)
    requires
        old(world).wf(),
    ensures
        final(world).wf(),
        final(world)@ == apply_action_model(old(world)@, SystemAction::IntegratePosition),
{
    let ghost w0 = world@;
    let n = world.positions.len();
    for i in 0..n
        invariant
            world.wf(),
            n == w0.positions.len(),
            world@ == (WorldModel { positions: world@.positions, ..w0 }),
            world@.positions.len() == n,
            forall|k: int| 0 <= k < i ==> world@.positions[k] == integrate_position_slot(w0, k),
            forall|k: int| i <= k < n ==> world@.positions[k] == w0.positions[k],
    {
        let mut newp: Option<Vec3> = None;
        if world.alive[i] {
            match (&world.positions[i], &world.velocities[i]) {
                (Some(p), Some(v)) => {
                    newp = Some(vec3_wrapping_add(*p, *v));
                },
                _ => {},
            }
        }
        match newp {
            Some(p) => {
                proof {
                    lemma_alive_not_free(world@, i);
                    assert(integrate_position_slot(w0, i as int) == Some(p));
                }
                world.positions.set(i, Some(p));
                proof {
                    assert(world@ =~= (WorldModel { positions: world@.positions, ..w0 }));
                }
            },
            None => {
                proof {
                    assert(world@.positions[i as int] == integrate_position_slot(w0, i as int));
                }
            },
        }
    }
    proof {
        assert(world@.positions =~= Seq::new(
            w0.positions.len(),
            |i: int| integrate_position_slot(w0, i),
        ));
        assert(world@ =~= apply_action_model(w0, SystemAction::IntegratePosition));
    }
}

/// Zero every live entity's accumulated force.
fn clear_forces(world: &mut World)
    requires
        old(world).wf(),
    ensures
        final(world).wf(),
        final(world)@ == apply_action_model(old(world)@, SystemAction::ClearForces),
{
    let ghost w0 = world@;
    let n = world.forces.len();
    for i in 0..n
        invariant
            world.wf(),
            n == w0.forces.len(),
            world@ == (WorldModel { forces: world@.forces, ..w0 }),
            world@.forces.len() == n,
            forall|k: int| 0 <= k < i ==> world@.forces[k] == clear_force_slot(w0, k),
            forall|k: int| i <= k < n ==> world@.forces[k] == w0.forces[k],
    {
        let mut clear: bool = false;
        if world.alive[i] {
            match &world.forces[i] {
                Some(_f) => {
                    clear = true;
                },
                None => {},
            }
        }
        if clear {
            proof {
                lemma_alive_not_free(world@, i);
                assert(clear_force_slot(w0, i as int) == Some(Vec3 { x: 0i64, y: 0, z: 0 }));
            }
            world.forces.set(i, Some(Vec3 { x: 0, y: 0, z: 0 }));
            proof {
                assert(world@ =~= (WorldModel { forces: world@.forces, ..w0 }));
            }
        } else {
            proof {
                assert(world@.forces[i as int] == clear_force_slot(w0, i as int));
            }
        }
    }
    proof {
        assert(world@.forces =~= Seq::new(w0.forces.len(), |i: int| clear_force_slot(w0, i)));
        assert(world@ =~= apply_action_model(w0, SystemAction::ClearForces));
    }
}

/// Advance every live entity's velocity by its accumulated force.
fn integrate_velocities(world: &mut World)
    requires
        old(world).wf(),
    ensures
        final(world).wf(),
        final(world)@ == apply_action_model(old(world)@, SystemAction::IntegrateVelocity),
{
    let ghost w0 = world@;
    let n = world.velocities.len();
    for i in 0..n
        invariant
            world.wf(),
            n == w0.velocities.len(),
            world@ == (WorldModel { velocities: world@.velocities, ..w0 }),
            world@.velocities.len() == n,
            forall|k: int| 0 <= k < i ==> world@.velocities[k] == integrate_velocity_slot(w0, k),
            forall|k: int| i <= k < n ==> world@.velocities[k] == w0.velocities[k],
    {
        let mut newv: Option<Vec3> = None;
        if world.alive[i] {
            match (&world.velocities[i], &world.forces[i]) {
                (Some(v), Some(f)) => {
                    newv = Some(vec3_wrapping_add(*v, *f));
                },
                _ => {},
            }
        }
        match newv {
            Some(v) => {
                proof {
                    lemma_alive_not_free(world@, i);
                    assert(integrate_velocity_slot(w0, i as int) == Some(v));
                }
                world.velocities.set(i, Some(v));
                proof {
                    assert(world@ =~= (WorldModel { velocities: world@.velocities, ..w0 }));
                }
            },
            None => {
                proof {
                    assert(world@.velocities[i as int] == integrate_velocity_slot(w0, i as int));
                }
            },
        }
    }
    proof {
        assert(world@.velocities =~= Seq::new(
            w0.velocities.len(),
            |i: int| integrate_velocity_slot(w0, i),
        ));
        assert(world@ =~= apply_action_model(w0, SystemAction::IntegrateVelocity));
    }
}

/// Append one output frame: the tick counter and a snapshot of the position
/// storage as the output system observes it.
fn record_output(world: &mut World)
    requires
        old(world).wf(),
    ensures
        final(world).wf(),
        final(world)@ == apply_action_model(old(world)@, SystemAction::RecordOutput),
{
    let ghost w0 = world@;
    let mut snapshot: Vec<Option<Vec3>> = Vec::new();
    let n = world.positions.len();
    for k in 0..n
        invariant
            world.wf(),
            world@ == w0,
            n == w0.positions.len(),
            snapshot@ == w0.positions.take(k as int),
    {
        proof {
            assert(w0.positions.take(k + 1).drop_last() =~= w0.positions.take(k as int));
        }
        snapshot.push(world.positions[k]);
        proof {
            assert(snapshot@ =~= w0.positions.take(k + 1));
        }
    }
    proof {
        assert(w0.positions.take(n as int) =~= w0.positions);
    }
    let rec = OutputRecord { step: world.step, positions: snapshot };
    world.output.push(rec);
    proof {
        assert(world@.output =~= w0.output.push(
            OutputRecordModel { step: w0.step, positions: w0.positions },
        ));
        assert(world@ =~= apply_action_model(w0, SystemAction::RecordOutput));
    }
}

/// Perform one system's work on the store.
pub fn apply_system_action(world: &mut World, a: SystemAction)
    requires
        old(world).wf(),
    ensures
        final(world).wf(),
        final(world)@ == apply_action_model(old(world)@, a),
{
    match a {
        SystemAction::IntegratePosition => integrate_positions(world),
        SystemAction::ClearForces => clear_forces(world),
        SystemAction::IntegrateVelocity => integrate_velocities(world),
        SystemAction::RecordOutput => record_output(world),
        SystemAction::ComputeTwoLevelPopulations => compute_two_level_populations(world),
        SystemAction::QueueDelete { index, generation } => {
            world.queue_delete(Entity { index, generation });
        },
        SystemAction::NoOp => {},
    }
}

/// The sequential fold of a list of systems over the store model, in
/// registration order: the canonical — and, because every system's effect is
/// entity-local and conflicting borrows are rejected at build time — the only
/// observable outcome of one graph traversal.
pub open spec fn run_model(w: WorldModel, actions: Seq<SystemAction>) -> WorldModel
    decreases actions.len(),
{
    if actions.len() == 0 {
        w
    } else {
        apply_action_model(run_model(w, actions.drop_last()), actions.last())
    }
}

/// Running systems in two batches equals running the concatenation: the
/// second batch starts from the state the first batch produced.
pub proof fn lemma_run_model_append(w: WorldModel, a: Seq<SystemAction>, b: Seq<SystemAction>)
    ensures
        run_model(w, a + b) == run_model(run_model(w, a), b),
    decreases b.len(),
{
    if b.len() == 0 {
        assert(a + b =~= a);
    } else {
        lemma_run_model_append(w, a, b.drop_last());
        assert((a + b).drop_last() =~= a + b.drop_last());
        assert((a + b).last() == b.last());
    }
}

/// Barrier ordering law: a system at position `j` of the graph runs on the
/// store state produced by completing every system before it. In particular,
/// a system registered after a barrier observes, within the same tick, every
/// write made by every system registered before the barrier — never the
/// pre-tick value.
pub proof fn lemma_barrier_ordering(
    w: WorldModel,
    actions: Seq<SystemAction>,
    i: int,
    j: int,
)
    requires
        0 <= i < j <= actions.len(),
    ensures
        run_model(w, actions.take(j)) == run_model(
            run_model(w, actions.take(i + 1)),
            actions.subrange(i + 1, j),
        ),
{
    assert(actions.take(j) =~= actions.take(i + 1) + actions.subrange(i + 1, j));
    lemma_run_model_append(w, actions.take(i + 1), actions.subrange(i + 1, j));
}

/// The output stage records what the writers produced: when the last system
/// of a traversal is the output system, the frame it appends holds exactly
/// the position storage as left by all systems before it — the post-write
/// values, never the pre-tick ones.
pub proof fn lemma_output_frame(w: WorldModel, actions: Seq<SystemAction>)
    requires
        actions.len() > 0,
        actions.last() == SystemAction::RecordOutput,
    ensures
        ({
            let before = run_model(w, actions.drop_last());
            let after = run_model(w, actions);
            &&& after.output.len() == before.output.len() + 1
            &&& after.output.last().positions == before.positions
            &&& after.output.last().step == before.step
        }),
{
}

/// Within a tick no system deletes: running any list of systems leaves the
/// entity population — aliveness, generations and the free list — unchanged,
/// and never advances the tick counter. Deletion is only queued, so an entity
/// queued for deletion mid-tick stays fully readable by every system that
/// runs before the end-of-tick commit.
pub proof fn lemma_run_preserves_entities(w: WorldModel, actions: Seq<SystemAction>)
    ensures
        run_model(w, actions).alive == w.alive,
        run_model(w, actions).generations == w.generations,
        run_model(w, actions).free == w.free,
        run_model(w, actions).step == w.step,
    decreases actions.len(),
{
    if actions.len() > 0 {
        lemma_run_preserves_entities(w, actions.drop_last());
    }
}

/// One named system of the built execution graph: its unique name, the names
/// of the systems it declares as predecessors, its work, and the
/// barrier-delimited region it was registered in.
pub struct RegisteredSystem {
    pub name: String,
    pub predecessors: Vec<String>,
    pub action: SystemAction,
    pub region: usize,
}

/// Some registered system carries this name.
pub open spec fn has_name(s: Seq<RegisteredSystem>, n: Seq<char>) -> bool {
    exists|i: int| 0 <= i < s.len() && (#[trigger] s[i]).name@ == n
}

/// Registering one more system adds exactly its name to the graph's names.
pub proof fn lemma_has_name_push(s: Seq<RegisteredSystem>, rs: RegisteredSystem, n: Seq<char>)
    ensures
        has_name(s.push(rs), n) <==> (has_name(s, n) || rs.name@ == n),
{
    if has_name(s.push(rs), n) {
        let i = choose|i: int| 0 <= i < s.push(rs).len() && s.push(rs)[i].name@ == n;
        if i < s.len() {
            assert(s[i].name@ == n);
        }
    }
    if has_name(s, n) {
        let i = choose|i: int| 0 <= i < s.len() && s[i].name@ == n;
        assert(s.push(rs)[i].name@ == n);
    }
    if rs.name@ == n {
        assert(s.push(rs)[s.len() as int].name@ == n);
    }
}

/// System `j` declares system `i` as a predecessor, by name.
pub open spec fn ordered_by_predecessor(s: Seq<RegisteredSystem>, i: int, j: int) -> bool {
    exists|k: int|
        0 <= k < s[j].predecessors@.len() && (#[trigger] s[j].predecessors@[k])@ == s[i].name@
}

/// Build-time borrow arbitration: any two systems of the same
/// barrier-delimited region whose declared borrow sets conflict must be
/// explicitly ordered by a predecessor declaration; otherwise they could run
/// concurrently on conflicting borrows.
pub open spec fn regions_compatible(s: Seq<RegisteredSystem>) -> bool {
    forall|i: int, j: int|
        0 <= i < j < s.len() && (#[trigger] s[i]).region == (#[trigger] s[j]).region
            && spec_actions_conflict(s[i].action, s[j].action) ==> ordered_by_predecessor(s, i, j)
}

/// The names of the graph's systems, in registration order.
pub open spec fn graph_names(s: Seq<RegisteredSystem>) -> Seq<Seq<char>> {
    s.map_values(|r: RegisteredSystem| r.name@)
}

/// A name is among the graph's names exactly when some system carries it.
pub proof fn lemma_graph_names_contains(s: Seq<RegisteredSystem>, n: Seq<char>)
    ensures
        graph_names(s).contains(n) == has_name(s, n),
{
    if graph_names(s).contains(n) {
        let i = choose|i: int| 0 <= i < graph_names(s).len() && graph_names(s)[i] == n;
        assert(s[i].name@ == n);
    }
    if has_name(s, n) {
        let i = choose|i: int| 0 <= i < s.len() && (#[trigger] s[i]).name@ == n;
        assert(graph_names(s)[i] == n);
        assert(graph_names(s).contains(n));
    }
}

/// Registering one more system appends exactly its name.
pub proof fn lemma_graph_names_push(s: Seq<RegisteredSystem>, rs: RegisteredSystem)
    ensures
        graph_names(s.push(rs)) == graph_names(s).push(rs.name@),
{
    assert(graph_names(s.push(rs)) =~= graph_names(s).push(rs.name@));
}

/// Appending two systems placed in fresh regions of their own neither adds
/// nor removes a borrow-arbitration obligation among the existing systems:
/// when the two appended systems do not conflict with each other, the
/// extended graph is compatible exactly when the original one is.
pub proof fn lemma_regions_compatible_append(
    s: Seq<RegisteredSystem>,
    a: RegisteredSystem,
    b: RegisteredSystem,
)
    requires
        forall|i: int| 0 <= i < s.len() ==> (#[trigger] s[i]).region != a.region,
        forall|i: int| 0 <= i < s.len() ==> (#[trigger] s[i]).region != b.region,
        a.region != b.region || !spec_actions_conflict(a.action, b.action),
    ensures
        regions_compatible(s.push(a).push(b)) == regions_compatible(s),
{
    let s2 = s.push(a).push(b);
    let n = s.len() as int;
    assert(forall|i: int| 0 <= i < n ==> s2[i] == s[i]);
    if regions_compatible(s) {
        assert forall|i: int, j: int|
            0 <= i < j < s2.len() && (#[trigger] s2[i]).region == (#[trigger] s2[j]).region
                && spec_actions_conflict(s2[i].action, s2[j].action) implies ordered_by_predecessor(
            s2,
            i,
            j,
        ) by {
            if j < n {
                assert(ordered_by_predecessor(s, i, j));
                let k = choose|k: int|
                    0 <= k < s[j].predecessors@.len() && (#[trigger] s[j].predecessors@[k])@
                        == s[i].name@;
                assert(s2[j].predecessors@[k]@ == s2[i].name@);
            } else if j == n {
                assert(s2[j] == a);
                assert(false);
            } else {
                assert(s2[j] == b);
                if i < n {
                    assert(false);
                } else {
                    assert(s2[i] == a);
                    assert(false);
                }
            }
        }
        assert(regions_compatible(s2));
    }
    if regions_compatible(s2) {
        assert forall|i: int, j: int|
            0 <= i < j < s.len() && (#[trigger] s[i]).region == (#[trigger] s[j]).region
                && spec_actions_conflict(s[i].action, s[j].action) implies ordered_by_predecessor(
            s,
            i,
            j,
        ) by {
            assert(s2[i] == s[i]);
            assert(s2[j] == s[j]);
            assert(ordered_by_predecessor(s2, i, j));
            let k = choose|k: int|
                0 <= k < s2[j].predecessors@.len() && (#[trigger] s2[j].predecessors@[k])@
                    == s2[i].name@;
            assert(s[j].predecessors@[k]@ == s[i].name@);
        }
        assert(regions_compatible(s));
    }
}

/// Whether some registered system carries this name.
fn find_name(systems: &Vec<RegisteredSystem>, n: &String) -> (r: bool)
    ensures
        r == has_name(systems@, n@),
{
    let len = systems.len();
    for j in 0..len
        invariant
            len == systems@.len(),
            forall|k: int| 0 <= k < j ==> (#[trigger] systems@[k]).name@ != n@,
    {
        if systems[j].name == *n {
            return true;
        }
    }
    false
}

/// Whether system `j` names system `i` as a predecessor.
fn pred_listed(systems: &Vec<RegisteredSystem>, i: usize, j: usize) -> (r: bool)
    requires
        i < systems@.len(),
        j < systems@.len(),
    ensures
        r == ordered_by_predecessor(systems@, i as int, j as int),
{
    let len = systems[j].predecessors.len();
    for k in 0..len
        invariant
            i < systems@.len(),
            j < systems@.len(),
            len == systems@[j as int].predecessors@.len(),
            forall|m: int|
                0 <= m < k ==> (#[trigger] systems@[j as int].predecessors@[m])@
                    != systems@[i as int].name@,
    {
        if systems[j].predecessors[k] == systems[i].name {
            return true;
        }
    }
    false
}

/// Accumulates the execution graph: named systems with explicit predecessor
/// names, partitioned into regions by explicit barriers.
pub struct DispatcherBuilder {
    pub systems: Vec<RegisteredSystem>,
    pub barriers: usize,
}

impl DispatcherBuilder {
    /// Every registered system sits in an existing region: none is placed
    /// beyond the current barrier count. `add` and `add_barrier` preserve
    /// this by construction.
    pub open spec fn wf(&self) -> bool {
        forall|i: int|
            0 <= i < self.systems@.len() ==> (#[trigger] self.systems@[i]).region <= self.barriers
    }

    /// An empty graph with no barrier.
    pub fn new() -> (b: DispatcherBuilder)
        ensures
            b.systems@ == Seq::<RegisteredSystem>::empty(),
            b.barriers == 0,
            b.wf(),
    {
        DispatcherBuilder { systems: Vec::new(), barriers: 0 }
    }

    /// Register a named system in the current region. The name must be
    /// fresh and every named predecessor must already be registered.
    pub fn add(&mut self, action: SystemAction, name: String, predecessors: Vec<String>) -> (r:
        Result<(), BuildError>)
        ensures
            match r {
                Ok(_) => {
                    &&& !has_name(old(self).systems@, name@)
                    &&& forall|i: int|
                        0 <= i < predecessors@.len() ==> has_name(
                            old(self).systems@,
                            (#[trigger] predecessors@[i])@,
                        )
                    &&& final(self).systems@ == old(self).systems@.push(
                        (RegisteredSystem { name, predecessors, action, region: old(self).barriers }),
                    )
                    &&& final(self).barriers == old(self).barriers
                },
                Err(BuildError::DuplicateSystemName { name: n }) => {
                    &&& n@ == name@
                    &&& has_name(old(self).systems@, name@)
                    &&& *final(self) == *old(self)
                },
                Err(BuildError::UnknownPredecessor { system, predecessor }) => {
                    &&& system@ == name@
                    &&& !has_name(old(self).systems@, name@)
                    &&& exists|i: int|
                        0 <= i < predecessors@.len() && (#[trigger] predecessors@[i])@
                            == predecessor@
                    &&& !has_name(old(self).systems@, predecessor@)
                    &&& *final(self) == *old(self)
                },
                Err(_) => false,
            },
    {
        if find_name(&self.systems, &name) {
            return Err(BuildError::DuplicateSystemName { name });
        }
        let len = predecessors.len();
        for i in 0..len
            invariant
                len == predecessors@.len(),
                !has_name(self.systems@, name@),
                *self == *old(self),
                forall|k: int|
                    0 <= k < i ==> has_name(self.systems@, (#[trigger] predecessors@[k])@),
        {
            if !find_name(&self.systems, &predecessors[i]) {
                let p = predecessors[i].clone();
                proof {
                    assert(predecessors@[i as int]@ == p@);
                }
                return Err(BuildError::UnknownPredecessor { system: name, predecessor: p });
            }
        }
        self.systems.push(RegisteredSystem { name, predecessors, action, region: self.barriers });
        Ok(())
    }

    /// Insert a full synchronization barrier: every system registered before
    /// it completes before any system registered after it starts.
    pub fn add_barrier(&mut self)
        requires
            old(self).barriers < usize::MAX,
        ensures
            final(self).systems@ == old(self).systems@,
            final(self).barriers == old(self).barriers + 1,
    {
        self.barriers = self.barriers + 1;
    }

    /// Validate the declared borrow sets — any two same-region systems whose
    /// borrows conflict must be explicitly ordered — and freeze the graph.
    pub fn build(self) -> (r: Result<Dispatcher, BuildError>)
        ensures
            r is Ok <==> regions_compatible(self.systems@),
            match r {
                Ok(d) => d.systems@ == self.systems@,
                Err(BuildError::BorrowConflict { first, second }) => exists|i: int, j: int|
                    0 <= i < j < self.systems@.len() && (#[trigger] self.systems@[i]).region == (
                    #[trigger] self.systems@[j]).region && spec_actions_conflict(
                        self.systems@[i].action,
                        self.systems@[j].action,
                    ) && !ordered_by_predecessor(self.systems@, i, j) && self.systems@[i].name@
                        == first@ && self.systems@[j].name@ == second@,
                Err(_) => false,
            },
    {
        let n = self.systems.len();
        for i in 0..n
            invariant
                n == self.systems@.len(),
                forall|x: int, y: int|
                    0 <= x < y < n && x < i && (#[trigger] self.systems@[x]).region == (
                    #[trigger] self.systems@[y]).region && spec_actions_conflict(
                        self.systems@[x].action,
                        self.systems@[y].action,
                    ) ==> ordered_by_predecessor(self.systems@, x, y),
        {
            let mut j = i + 1;
            while j < n
                invariant
                    n == self.systems@.len(),
                    i < n,
                    i + 1 <= j <= n,
                    forall|y: int|
                        i < y < j && (#[trigger] self.systems@[y]).region
                            == self.systems@[i as int].region && spec_actions_conflict(
                            self.systems@[i as int].action,
                            self.systems@[y].action,
                        ) ==> ordered_by_predecessor(self.systems@, i as int, y),
                decreases n - j,
            {
                if self.systems[i].region == self.systems[j].region {
                    if actions_conflict(&self.systems[i].action, &self.systems[j].action) {
                        if !pred_listed(&self.systems, i, j) {
                            return Err(BuildError::BorrowConflict {
                                first: self.systems[i].name.clone(),
                                second: self.systems[j].name.clone(),
                            });
                        }
                    }
                }
                j = j + 1;
            }
        }
        Ok(Dispatcher { systems: self.systems })
    }
}

/// A built, immutable execution graph. All mutable state lives in the store;
/// the dispatcher is stateless across ticks.
pub struct Dispatcher {
    pub systems: Vec<RegisteredSystem>,
}

impl Dispatcher {
    /// The work of the graph's systems, in registration order.
    pub open spec fn actions(&self) -> Seq<SystemAction> {
        self.systems@.map_values(|r: RegisteredSystem| r.action)
    }

    /// Drive one traversal of the graph: every system runs once, each on the
    /// store state produced by completing all systems before it.
    pub fn dispatch(&self, world: &mut World)
        requires
            old(world).wf(),
        ensures
            final(world).wf(),
            final(world)@ == run_model(old(world)@, self.actions()),
    {
        let ghost w0 = old(world)@;
        let n = self.systems.len();
        for i in 0..n
            invariant
                world.wf(),
                n == self.systems@.len(),
                world@ == run_model(w0, self.actions().take(i as int)),
        {
            proof {
                assert(self.actions().take(i + 1).drop_last() =~= self.actions().take(i as int));
                assert(self.actions().take(i + 1).last() == self.systems@[i as int].action);
            }
            let a = self.systems[i].action;
            apply_system_action(world, a);
        }
        proof {
            assert(self.actions().take(n as int) =~= self.actions());
        }
    }
}

} // verus!
