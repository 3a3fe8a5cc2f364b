//! The entity-component store.
//!
//! Entities are opaque handles `(index, generation)` into arena storage.
//! Deletion is deferred: it is queued during a tick and committed at one
//! synchronization point, at which the slot is tombstoned and its generation
//! incremented so that stale handles are rejected, never aliased to a new
//! occupant.

use crate::twolevel::TwoLevelPopulation;
use vstd::prelude::*;

verus! {

/// Opaque handle to one simulated particle.
#[derive(Clone, Copy, Debug, PartialEq, Eq, Structural)]
pub struct Entity {
    /// Slot index into the arena.
    pub index: usize,
    /// Generation the slot had when the handle was issued.
    pub generation: u64,
}

/// A three-component integer vector, used for positions, velocities and
/// forces (fixed-point units).
#[derive(Clone, Copy, Debug, PartialEq, Eq, Structural)]
pub struct Vec3 {
    pub x: i64,
    pub y: i64,
    pub z: i64,
}

/// Runtime species tag for an atomic optical transition, carrying its fixed
/// natural linewidth.
#[derive(Clone, Copy, Debug, PartialEq, Eq, Structural)]
pub struct Transition {
    /// Natural linewidth of the transition, in the common rate unit.
    /// Must be positive; this is a documented precondition on transition
    /// definitions, enforced at component insertion.
    pub gamma: u64,
}

/// Excitation rate contributed by one beam lane, in the common rate unit.
#[derive(Clone, Copy, Debug, PartialEq, Eq, Structural)]
pub struct RateCoefficient {
    pub rate: u64,
}

/// Fixed-capacity ordered array of per-lane excitation rates for one entity.
#[derive(Clone, Debug)]
pub struct RateCoefficients {
    pub contents: Vec<RateCoefficient>,
}

/// Whether one beam lane is filled (active) for an entity.
#[derive(Clone, Copy, Debug, PartialEq, Eq, Structural)]
pub struct LaserSamplerMask {
    pub filled: bool,
}

/// Fixed-capacity ordered array of per-lane activity masks, with the same
/// lane count as the entity's `RateCoefficients`.
#[derive(Clone, Debug)]
pub struct CoolingLaserSamplerMasks {
    pub contents: Vec<LaserSamplerMask>,
}

/// One frame emitted by the output stage: the tick counter and a snapshot of
/// every position slot at the time the output system ran.
#[derive(Clone, Debug)]
pub struct OutputRecord {
    pub step: u64,
    pub positions: Vec<Option<Vec3>>,
}

/// Mathematical model of an [`OutputRecord`].
pub ghost struct OutputRecordModel {
    pub step: u64,
    pub positions: Seq<Option<Vec3>>,
}

impl View for OutputRecord {
    type V = OutputRecordModel;

    open spec fn view(&self) -> OutputRecordModel {
        OutputRecordModel { step: self.step, positions: self.positions@ }
    }
}

/// Mathematical model of the whole store: one sequence per component type,
/// all indexed by slot, plus the allocator state and the tick counter.
#[verifier::ext_equal]
pub ghost struct WorldModel {
    pub generations: Seq<u64>,
    pub alive: Seq<bool>,
    pub free: Seq<usize>,
    pub pending: Seq<Entity>,
    pub positions: Seq<Option<Vec3>>,
    pub velocities: Seq<Option<Vec3>>,
    pub forces: Seq<Option<Vec3>>,
    pub transitions: Seq<Option<Transition>>,
    pub rates: Seq<Option<RateCoefficients>>,
    pub masks: Seq<Option<CoolingLaserSamplerMasks>>,
    pub populations: Seq<Option<TwoLevelPopulation>>,
    pub step: u64,
    pub output: Seq<OutputRecordModel>,
}

/// The handle refers to a live slot whose generation still matches: stale
/// handles are rejected.
pub open spec fn handle_valid(w: WorldModel, e: Entity) -> bool {
    &&& e.index < w.alive.len()
    &&& w.alive[e.index as int]
    &&& w.generations[e.index as int] == e.generation
}

/// A slot on the free list is inside the arena, dead, and stripped of every
/// component.
pub open spec fn free_slot_ok(w: WorldModel, s: usize) -> bool {
    &&& s < w.alive.len()
    &&& !w.alive[s as int]
    &&& w.positions[s as int] is None
    &&& w.velocities[s as int] is None
    &&& w.forces[s as int] is None
    &&& w.transitions[s as int] is None
    &&& w.rates[s as int] is None
    &&& w.masks[s as int] is None
    &&& w.populations[s as int] is None
}

/// Well-formedness of the store: all storages cover the same slots, the free
/// list holds distinct tombstoned slots, and every stored transition has a
/// positive linewidth.
pub open spec fn world_wf(w: WorldModel) -> bool {
    &&& w.alive.len() == w.generations.len()
    &&& w.positions.len() == w.generations.len()
    &&& w.velocities.len() == w.generations.len()
    &&& w.forces.len() == w.generations.len()
    &&& w.transitions.len() == w.generations.len()
    &&& w.rates.len() == w.generations.len()
    &&& w.masks.len() == w.generations.len()
    &&& w.populations.len() == w.generations.len()
    &&& forall|j: int| 0 <= j < w.free.len() ==> free_slot_ok(w, #[trigger] w.free[j])
    &&& forall|j: int, k: int|
        0 <= j < k < w.free.len() ==> #[trigger] w.free[j] != #[trigger] w.free[k]
    &&& forall|i: int|
        0 <= i < w.transitions.len() ==> (#[trigger] w.transitions[i] matches Some(t) ==> t.gamma
            > 0)
}

/// Every slot on the free list differs from a live slot.
pub proof fn lemma_alive_not_free(w: WorldModel, i: usize)
    requires
        world_wf(w),
        i < w.alive.len(),
        w.alive[i as int],
    ensures
        forall|j: int| 0 <= j < w.free.len() ==> #[trigger] w.free[j] != i,
{
    assert forall|j: int| 0 <= j < w.free.len() implies #[trigger] w.free[j] != i by {
        assert(free_slot_ok(w, w.free[j]));
    }
}

/// Typed, generation-checked storage for per-entity data, with a deferred
/// deletion queue and a tick counter resource.
pub struct World {
    pub generations: Vec<u64>,
    pub alive: Vec<bool>,
    pub free: Vec<usize>,
    pub pending: Vec<Entity>,
    pub positions: Vec<Option<Vec3>>,
    pub velocities: Vec<Option<Vec3>>,
    pub forces: Vec<Option<Vec3>>,
    pub transitions: Vec<Option<Transition>>,
    pub rates: Vec<Option<RateCoefficients>>,
    pub masks: Vec<Option<CoolingLaserSamplerMasks>>,
    pub populations: Vec<Option<TwoLevelPopulation>>,
    pub step: u64,
    pub output: Vec<OutputRecord>,
}

impl View for World {
    type V = WorldModel;

    open spec fn view(&self) -> WorldModel {
        WorldModel {
            generations: self.generations@,
            alive: self.alive@,
            free: self.free@,
            pending: self.pending@,
            positions: self.positions@,
            velocities: self.velocities@,
            forces: self.forces@,
            transitions: self.transitions@,
            rates: self.rates@,
            masks: self.masks@,
            populations: self.populations@,
            step: self.step,
            output: self.output@.map_values(|r: OutputRecord| r@),
        }
    }
}

/// The model of a store that holds no entities.
pub open spec fn empty_world_model() -> WorldModel {
    WorldModel {
        generations: Seq::empty(),
        alive: Seq::empty(),
        free: Seq::empty(),
        pending: Seq::empty(),
        positions: Seq::empty(),
        velocities: Seq::empty(),
        forces: Seq::empty(),
        transitions: Seq::empty(),
        rates: Seq::empty(),
        masks: Seq::empty(),
        populations: Seq::empty(),
        step: 0,
        output: Seq::empty(),
    }
}

impl World {
    /// The store is well formed.
    pub open spec fn wf(&self) -> bool {
        world_wf(self@)
    }

    /// Create an empty store with the tick counter at zero.
    pub fn new() -> (w: World)
        ensures
            w@ == empty_world_model(),
            w.wf(),
    {
        let w = World {
            generations: Vec::new(),
            alive: Vec::new(),
            free: Vec::new(),
            pending: Vec::new(),
            positions: Vec::new(),
            velocities: Vec::new(),
            forces: Vec::new(),
            transitions: Vec::new(),
            rates: Vec::new(),
            masks: Vec::new(),
            populations: Vec::new(),
            step: 0,
            output: Vec::new(),
        };
        proof {
            assert(w@ =~= empty_world_model());
        }
        w
    }

    /// The handle refers to a live entity whose generation still matches.
    pub fn is_alive(&self, e: Entity) -> (r: bool)
        requires
            self.wf(),
        ensures
            r == handle_valid(self@, e),
    {
        e.index < self.generations.len() && self.alive[e.index] && self.generations[e.index]
            == e.generation
    }

    /// Create a fresh entity, reusing a tombstoned slot when one is free.
    /// The returned handle is valid and carries no components.
    pub fn create_entity(&mut self) -> (e: Entity)
        requires
            old(self).wf(),
            old(self)@.generations.len() < usize::MAX,
        ensures
            final(self).wf(),
            handle_valid(final(self)@, e),
            final(self)@.pending == old(self)@.pending,
            final(self)@.step == old(self)@.step,
            final(self)@.output == old(self)@.output,
            final(self)@.positions[e.index as int] is None,
            final(self)@.velocities[e.index as int] is None,
            final(self)@.forces[e.index as int] is None,
            final(self)@.transitions[e.index as int] is None,
            final(self)@.rates[e.index as int] is None,
            final(self)@.masks[e.index as int] is None,
            final(self)@.populations[e.index as int] is None,
            if old(self)@.free.len() > 0 {
                &&& e.index == old(self)@.free.last()
                &&& e.generation == old(self)@.generations[e.index as int]
                &&& final(self)@ == (WorldModel {
                    alive: old(self)@.alive.update(e.index as int, true),
                    free: old(self)@.free.drop_last(),
                    ..old(self)@
                })
            } else {
                &&& e.index == old(self)@.generations.len()
                &&& e.generation == 0
                &&& final(self)@ == (WorldModel {
                    generations: old(self)@.generations.push(0),
                    alive: old(self)@.alive.push(true),
                    positions: old(self)@.positions.push(None),
                    velocities: old(self)@.velocities.push(None),
                    forces: old(self)@.forces.push(None),
                    transitions: old(self)@.transitions.push(None),
                    rates: old(self)@.rates.push(None),
                    masks: old(self)@.masks.push(None),
                    populations: old(self)@.populations.push(None),
                    ..old(self)@
                })
            },
    {
        let ghost w0 = self@;
        if self.free.len() > 0 {
            let idx = self.free.pop().unwrap();
            proof {
                assert(free_slot_ok(w0, w0.free.last()));
            }
            self.alive.set(idx, true);
            let gen = self.generations[idx];
            let e = Entity { index: idx, generation: gen };
            proof {
                assert(final(self)@ =~= (WorldModel {
                    alive: w0.alive.update(e.index as int, true),
                    free: w0.free.drop_last(),
                    ..w0
                }));
                assert forall|j: int|
                    0 <= j < final(self)@.free.len() implies free_slot_ok(
                    final(self)@,
                    #[trigger] final(self)@.free[j],
                ) by {
                    assert(free_slot_ok(w0, w0.free[j]));
                    assert(w0.free[j] != idx);
                }
            }
            e
        } else {
            let idx = self.generations.len();
            self.generations.push(0);
            self.alive.push(true);
            self.positions.push(None);
            self.velocities.push(None);
            self.forces.push(None);
            self.transitions.push(None);
            self.rates.push(None);
            self.masks.push(None);
            self.populations.push(None);
            let e = Entity { index: idx, generation: 0 };
            proof {
                assert(final(self)@ =~= (WorldModel {
                    generations: w0.generations.push(0),
                    alive: w0.alive.push(true),
                    positions: w0.positions.push(None),
                    velocities: w0.velocities.push(None),
                    forces: w0.forces.push(None),
                    transitions: w0.transitions.push(None),
                    rates: w0.rates.push(None),
                    masks: w0.masks.push(None),
                    populations: w0.populations.push(None),
                    ..w0
                }));
                assert forall|j: int|
                    0 <= j < final(self)@.free.len() implies free_slot_ok(
                    final(self)@,
                    #[trigger] final(self)@.free[j],
                ) by {
                    assert(free_slot_ok(w0, w0.free[j]));
                }
            }
            e
        }
    }

    /// Record the entity for deletion at the next end-of-tick commit. The
    /// store itself is untouched: every component of the entity remains
    /// readable until the commit point.
    pub fn queue_delete(&mut self, e: Entity)
        requires
            old(self).wf(),
        ensures
            final(self).wf(),
            final(self)@ == (WorldModel { pending: old(self)@.pending.push(e), ..old(self)@ }),
    {
        self.pending.push(e);
        proof {
            assert(final(self)@ =~= (WorldModel {
                pending: old(self)@.pending.push(e),
                ..old(self)@
            }));
        }
    }

    /// Commit one queued deletion: if the handle is still valid, tombstone
    /// the slot, strip its components, and bump its generation so the stale
    /// handle is invalid from now on. A slot whose generation is exhausted is
    /// retired instead of being put back on the free list, so its handles can
    /// never alias a new occupant.
    fn commit_entity(&mut self, e: Entity)
        requires
            old(self).wf(),
        ensures
            final(self).wf(),
            final(self)@ == commit_one(old(self)@, e),
    {
        let ghost w0 = self@;
        if e.index < self.generations.len() && self.alive[e.index] && self.generations[e.index]
            == e.generation {
            proof {
                lemma_alive_not_free(w0, e.index);
            }
            self.alive.set(e.index, false);
            self.positions.set(e.index, None);
            self.velocities.set(e.index, None);
            self.forces.set(e.index, None);
            self.transitions.set(e.index, None);
            self.rates.set(e.index, None);
            self.masks.set(e.index, None);
            self.populations.set(e.index, None);
            let g = self.generations[e.index];
            if g < u64::MAX {
                self.generations.set(e.index, g + 1);
                self.free.push(e.index);
            }
            proof {
                assert(final(self)@ =~= commit_one(w0, e));
                assert forall|j: int|
                    0 <= j < final(self)@.free.len() implies free_slot_ok(
                    final(self)@,
                    #[trigger] final(self)@.free[j],
                ) by {
                    if j < w0.free.len() {
                        assert(free_slot_ok(w0, w0.free[j]));
                    }
                }
            }
        } else {
            proof {
                assert(final(self)@ =~= commit_one(w0, e));
            }
        }
    }

    /// Apply every queued deletion at the single end-of-tick synchronization
    /// point, in queue order, then clear the queue. Afterwards every entity
    /// that was queued with a then-valid handle is fully absent: its handle
    /// is rejected and all of its components are gone.
    pub fn maintain(&mut self)
        requires
            old(self).wf(),
        ensures
            final(self).wf(),
            final(self)@ == commit_model(old(self)@),
    {
        let ghost w0 = self@;
        let n = self.pending.len();
        for i in 0..n
            invariant
                self.wf(),
                n == w0.pending.len(),
                self.pending@ == w0.pending,
                self@ == commit_list(w0, w0.pending.take(i as int)),
        {
            let e = self.pending[i];
            proof {
                assert(w0.pending.take(i + 1).drop_last() =~= w0.pending.take(i as int));
                assert(w0.pending.take(i + 1).last() == e);
            }
            self.commit_entity(e);
        }
        proof {
            assert(w0.pending.take(n as int) =~= w0.pending);
        }
        self.pending.clear();
        proof {
            assert(final(self)@ =~= commit_model(w0));
        }
    }

    /// Attach or replace the entity's position. A stale or dead handle is
    /// rejected and the store is left unchanged.
    pub fn insert_position(&mut self, e: Entity, value: Vec3) -> (r: bool)
        requires
            old(self).wf(),
        ensures
            final(self).wf(),
            r == handle_valid(old(self)@, e),
            r ==> final(self)@ == (WorldModel {
                positions: old(self)@.positions.update(e.index as int, Some(value)),
                ..old(self)@
            }),
            !r ==> final(self)@ == old(self)@,
    {
        if self.is_alive(e) {
            proof {
                lemma_alive_not_free(self@, e.index);
            }
            self.positions.set(e.index, Some(value));
            proof {
                assert(final(self)@ =~= (WorldModel {
                    positions: old(self)@.positions.update(e.index as int, Some(value)),
                    ..old(self)@
                }));
            }
            true
        } else {
            false
        }
    }

    /// Attach or replace the entity's velocity; a stale handle is rejected.
    pub fn insert_velocity(&mut self, e: Entity, value: Vec3) -> (r: bool)
        requires
            old(self).wf(),
        ensures
            final(self).wf(),
            r == handle_valid(old(self)@, e),
            r ==> final(self)@ == (WorldModel {
                velocities: old(self)@.velocities.update(e.index as int, Some(value)),
                ..old(self)@
            }),
            !r ==> final(self)@ == old(self)@,
    {
        if self.is_alive(e) {
            proof {
                lemma_alive_not_free(self@, e.index);
            }
            self.velocities.set(e.index, Some(value));
            proof {
                assert(final(self)@ =~= (WorldModel {
                    velocities: old(self)@.velocities.update(e.index as int, Some(value)),
                    ..old(self)@
                }));
            }
            true
        } else {
            false
        }
    }

    /// Attach or replace the entity's accumulated force; a stale handle is
    /// rejected.
    pub fn insert_force(&mut self, e: Entity, value: Vec3) -> (r: bool)
        requires
            old(self).wf(),
        ensures
            final(self).wf(),
            r == handle_valid(old(self)@, e),
            r ==> final(self)@ == (WorldModel {
                forces: old(self)@.forces.update(e.index as int, Some(value)),
                ..old(self)@
            }),
            !r ==> final(self)@ == old(self)@,
    {
        if self.is_alive(e) {
            proof {
                lemma_alive_not_free(self@, e.index);
            }
            self.forces.set(e.index, Some(value));
            proof {
                assert(final(self)@ =~= (WorldModel {
                    forces: old(self)@.forces.update(e.index as int, Some(value)),
                    ..old(self)@
                }));
            }
            true
        } else {
            false
        }
    }

    /// Attach or replace the entity's transition marker. The linewidth must
    /// be positive: this is the documented precondition on transition
    /// definitions. A stale handle is rejected.
    pub fn insert_transition(&mut self, e: Entity, value: Transition) -> (r: bool)
        requires
            old(self).wf(),
            value.gamma > 0,
        ensures
            final(self).wf(),
            r == handle_valid(old(self)@, e),
            r ==> final(self)@ == (WorldModel {
                transitions: old(self)@.transitions.update(e.index as int, Some(value)),
                ..old(self)@
            }),
            !r ==> final(self)@ == old(self)@,
    {
        if self.is_alive(e) {
            proof {
                lemma_alive_not_free(self@, e.index);
            }
            self.transitions.set(e.index, Some(value));
            proof {
                assert(final(self)@ =~= (WorldModel {
                    transitions: old(self)@.transitions.update(e.index as int, Some(value)),
                    ..old(self)@
                }));
            }
            true
        } else {
            false
        }
    }

    /// Attach or replace the entity's per-lane rate coefficients; a stale
    /// handle is rejected.
    pub fn insert_rate_coefficients(&mut self, e: Entity, value: RateCoefficients) -> (r: bool)
        requires
            old(self).wf(),
        ensures
            final(self).wf(),
            r == handle_valid(old(self)@, e),
            r ==> final(self)@ == (WorldModel {
                rates: old(self)@.rates.update(e.index as int, Some(value)),
                ..old(self)@
            }),
            !r ==> final(self)@ == old(self)@,
    {
        if self.is_alive(e) {
            proof {
                lemma_alive_not_free(self@, e.index);
            }
            self.rates.set(e.index, Some(value));
            proof {
                assert(final(self)@ =~= (WorldModel {
                    rates: old(self)@.rates.update(e.index as int, Some(value)),
                    ..old(self)@
                }));
            }
            true
        } else {
            false
        }
    }

    /// Attach or replace the entity's per-lane sampler masks; a stale handle
    /// is rejected.
    pub fn insert_masks(&mut self, e: Entity, value: CoolingLaserSamplerMasks) -> (r: bool)
        requires
            old(self).wf(),
        ensures
            final(self).wf(),
            r == handle_valid(old(self)@, e),
            r ==> final(self)@ == (WorldModel {
                masks: old(self)@.masks.update(e.index as int, Some(value)),
                ..old(self)@
            }),
            !r ==> final(self)@ == old(self)@,
    {
        if self.is_alive(e) {
            proof {
                lemma_alive_not_free(self@, e.index);
            }
            self.masks.set(e.index, Some(value));
            proof {
                assert(final(self)@ =~= (WorldModel {
                    masks: old(self)@.masks.update(e.index as int, Some(value)),
                    ..old(self)@
                }));
            }
            true
        } else {
            false
        }
    }

    /// Attach or replace the entity's two-level population; a stale handle
    /// is rejected.
    pub fn insert_population(&mut self, e: Entity, value: TwoLevelPopulation) -> (r: bool)
        requires
            old(self).wf(),
        ensures
            final(self).wf(),
            r == handle_valid(old(self)@, e),
            r ==> final(self)@ == (WorldModel {
                populations: old(self)@.populations.update(e.index as int, Some(value)),
                ..old(self)@
            }),
            !r ==> final(self)@ == old(self)@,
    {
        if self.is_alive(e) {
            proof {
                lemma_alive_not_free(self@, e.index);
            }
            self.populations.set(e.index, Some(value));
            proof {
                assert(final(self)@ =~= (WorldModel {
                    populations: old(self)@.populations.update(e.index as int, Some(value)),
                    ..old(self)@
                }));
            }
            true
        } else {
            false
        }
    }

    /// Read the entity's position; `None` for a stale handle or a missing
    /// component.
    pub fn get_position(&self, e: Entity) -> (r: Option<&Vec3>)
        requires
            self.wf(),
        ensures
            match r {
                Some(v) => handle_valid(self@, e) && self@.positions[e.index as int] == Some(*v),
                None => !(handle_valid(self@, e) && self@.positions[e.index as int] is Some),
            },
    {
        if self.is_alive(e) {
            match &self.positions[e.index] {
                Some(v) => Some(v),
                None => None,
            }
        } else {
            None
        }
    }

    /// Read the entity's velocity; `None` for a stale handle or a missing
    /// component.
    pub fn get_velocity(&self, e: Entity) -> (r: Option<&Vec3>)
        requires
            self.wf(),
        ensures
            match r {
                Some(v) => handle_valid(self@, e) && self@.velocities[e.index as int] == Some(*v),
                None => !(handle_valid(self@, e) && self@.velocities[e.index as int] is Some),
            },
    {
        if self.is_alive(e) {
            match &self.velocities[e.index] {
                Some(v) => Some(v),
                None => None,
            }
        } else {
            None
        }
    }

    /// Read the entity's accumulated force; `None` for a stale handle or a
    /// missing component.
    pub fn get_force(&self, e: Entity) -> (r: Option<&Vec3>)
        requires
            self.wf(),
        ensures
            match r {
                Some(v) => handle_valid(self@, e) && self@.forces[e.index as int] == Some(*v),
                None => !(handle_valid(self@, e) && self@.forces[e.index as int] is Some),
            },
    {
        if self.is_alive(e) {
            match &self.forces[e.index] {
                Some(v) => Some(v),
                None => None,
            }
        } else {
            None
        }
    }

    /// Read the entity's transition marker; `None` for a stale handle or a
    /// missing component.
    pub fn get_transition(&self, e: Entity) -> (r: Option<&Transition>)
        requires
            self.wf(),
        ensures
            match r {
                Some(v) => handle_valid(self@, e) && self@.transitions[e.index as int] == Some(*v),
                None => !(handle_valid(self@, e) && self@.transitions[e.index as int] is Some),
            },
    {
        if self.is_alive(e) {
            match &self.transitions[e.index] {
                Some(v) => Some(v),
                None => None,
            }
        } else {
            None
        }
    }

    /// Read the entity's rate coefficients; `None` for a stale handle or a
    /// missing component.
    pub fn get_rate_coefficients(&self, e: Entity) -> (r: Option<&RateCoefficients>)
        requires
            self.wf(),
        ensures
            match r {
                Some(v) => handle_valid(self@, e) && self@.rates[e.index as int] == Some(*v),
                None => !(handle_valid(self@, e) && self@.rates[e.index as int] is Some),
            },
    {
        if self.is_alive(e) {
            match &self.rates[e.index] {
                Some(v) => Some(v),
                None => None,
            }
        } else {
            None
        }
    }

    /// Read the entity's sampler masks; `None` for a stale handle or a
    /// missing component.
    pub fn get_masks(&self, e: Entity) -> (r: Option<&CoolingLaserSamplerMasks>)
        requires
            self.wf(),
        ensures
            match r {
                Some(v) => handle_valid(self@, e) && self@.masks[e.index as int] == Some(*v),
                None => !(handle_valid(self@, e) && self@.masks[e.index as int] is Some),
            },
    {
        if self.is_alive(e) {
            match &self.masks[e.index] {
                Some(v) => Some(v),
                None => None,
            }
        } else {
            None
        }
    }

    /// Read the entity's two-level population; `None` for a stale handle or
    /// a missing component.
    pub fn get_population(&self, e: Entity) -> (r: Option<&TwoLevelPopulation>)
        requires
            self.wf(),
        ensures
            match r {
                Some(v) => handle_valid(self@, e) && self@.populations[e.index as int] == Some(*v),
                None => !(handle_valid(self@, e) && self@.populations[e.index as int] is Some),
            },
    {
        if self.is_alive(e) {
            match &self.populations[e.index] {
                Some(v) => Some(v),
                None => None,
            }
        } else {
            None
        }
    }

    /// Read the tick counter resource.
    pub fn get_step(&self) -> (r: u64)
        ensures
            r == self@.step,
    {
        self.step
    }

    /// Read the output frame log.
    pub fn get_output(&self) -> (r: &Vec<OutputRecord>)
        ensures
            r@.map_values(|o: OutputRecord| o@) == self@.output,
    {
        &self.output
    }
}

/// The effect of committing one queued deletion on the store model.
pub open spec fn commit_one(w: WorldModel, e: Entity) -> WorldModel {
    if handle_valid(w, e) {
        let g = w.generations[e.index as int];
        WorldModel {
            alive: w.alive.update(e.index as int, false),
            generations: if g < u64::MAX {
                w.generations.update(e.index as int, (g + 1) as u64)
            } else {
                w.generations
            },
            free: if g < u64::MAX {
                w.free.push(e.index)
            } else {
                w.free
            },
            positions: w.positions.update(e.index as int, None),
            velocities: w.velocities.update(e.index as int, None),
            forces: w.forces.update(e.index as int, None),
            transitions: w.transitions.update(e.index as int, None),
            rates: w.rates.update(e.index as int, None),
            masks: w.masks.update(e.index as int, None),
            populations: w.populations.update(e.index as int, None),
            ..w
        }
    } else {
        w
    }
}

/// Commit a queue of deletions in order.
pub open spec fn commit_list(w: WorldModel, ps: Seq<Entity>) -> WorldModel
    decreases ps.len(),
{
    if ps.len() == 0 {
        w
    } else {
        commit_one(commit_list(w, ps.drop_last()), ps.last())
    }
}

/// The end-of-tick commit: apply the queued deletions, then clear the queue.
pub open spec fn commit_model(w: WorldModel) -> WorldModel {
    WorldModel { pending: Seq::empty(), ..commit_list(w, w.pending) }
}

/// All component storages cover the same slots as the allocator.
pub open spec fn storages_span(w: WorldModel) -> bool {
    &&& w.alive.len() == w.generations.len()
    &&& w.positions.len() == w.generations.len()
    &&& w.velocities.len() == w.generations.len()
    &&& w.forces.len() == w.generations.len()
    &&& w.transitions.len() == w.generations.len()
    &&& w.rates.len() == w.generations.len()
    &&& w.masks.len() == w.generations.len()
    &&& w.populations.len() == w.generations.len()
}

/// Slot `i` carries the same allocator state and components in both worlds.
pub open spec fn slot_unchanged(w: WorldModel, v: WorldModel, i: int) -> bool {
    &&& v.alive[i] == w.alive[i]
    &&& v.generations[i] == w.generations[i]
    &&& v.positions[i] == w.positions[i]
    &&& v.velocities[i] == w.velocities[i]
    &&& v.forces[i] == w.forces[i]
    &&& v.transitions[i] == w.transitions[i]
    &&& v.rates[i] == w.rates[i]
    &&& v.masks[i] == w.masks[i]
    &&& v.populations[i] == w.populations[i]
}

/// Slot `i` is tombstoned and stripped of every component.
pub open spec fn slot_dead(v: WorldModel, i: int) -> bool {
    &&& !v.alive[i]
    &&& v.positions[i] is None
    &&& v.velocities[i] is None
    &&& v.forces[i] is None
    &&& v.transitions[i] is None
    &&& v.rates[i] is None
    &&& v.masks[i] is None
    &&& v.populations[i] is None
}

/// Committing deletions touches only the allocator and the component
/// storages: the tick counter, the output log and the queue itself are left
/// alone.
pub proof fn lemma_commit_list_resources(w: WorldModel, ps: Seq<Entity>)
    ensures
        commit_list(w, ps).step == w.step,
        commit_list(w, ps).output == w.output,
        commit_list(w, ps).pending == w.pending,
    decreases ps.len(),
{
    if ps.len() > 0 {
        lemma_commit_list_resources(w, ps.drop_last());
    }
}

/// Committing deletions leaves every slot either untouched or tombstoned:
/// the commit never writes a component and never revives an entity.
pub proof fn lemma_commit_list_slot(w: WorldModel, ps: Seq<Entity>, i: int)
    requires
        storages_span(w),
        0 <= i < w.alive.len(),
    ensures
        storages_span(commit_list(w, ps)),
        commit_list(w, ps).generations.len() == w.generations.len(),
        slot_unchanged(w, commit_list(w, ps), i) || slot_dead(commit_list(w, ps), i),
    decreases ps.len(),
{
    if ps.len() > 0 {
        lemma_commit_list_slot(w, ps.drop_last(), i);
    }
}

/// An entity queued for deletion with a then-valid handle is fully absent
/// once the queue is committed: the slot is dead and all its components are
/// gone, so the stale handle is rejected from then on.
pub proof fn lemma_commit_list_kills(w: WorldModel, ps: Seq<Entity>, e: Entity)
    requires
        storages_span(w),
        handle_valid(w, e),
        ps.contains(e),
    ensures
        slot_dead(commit_list(w, ps), e.index as int),
        !handle_valid(commit_list(w, ps), e),
    decreases ps.len(),
{
    let i = e.index as int;
    let init = ps.drop_last();
    let l = ps.last();
    let wmid = commit_list(w, init);
    lemma_commit_list_slot(w, init, i);
    if init.contains(e) {
        lemma_commit_list_kills(w, init, e);
    } else {
        let k = choose|k: int| 0 <= k < ps.len() && ps[k] == e;
        if k < ps.len() - 1 {
            assert(init[k] == e);
            assert(init.contains(e));
        }
        assert(e == l);
        assert(slot_unchanged(w, wmid, i) || slot_dead(wmid, i));
        if slot_unchanged(w, wmid, i) {
            assert(handle_valid(wmid, l));
        }
    }
}

/// Deferred deletion, at the commit point: an entity whose deletion was
/// queued with a valid handle is fully absent from the store immediately
/// after the end-of-tick commit.
pub proof fn lemma_deferred_deletion_commit(w: WorldModel, e: Entity)
    requires
        world_wf(w),
        handle_valid(w, e),
        w.pending.contains(e),
    ensures
        !handle_valid(commit_model(w), e),
        slot_dead(commit_model(w), e.index as int),
{
    lemma_commit_list_kills(w, w.pending, e);
}

} // verus!
