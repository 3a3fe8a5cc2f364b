//! Calculation of the steady-state two-level populations.
//!
//! Populations are exact rationals: a `TwoLevelPopulation` stores the ground
//! and excited occupation probabilities as `ground_num / denom` and
//! `excited_num / denom` over one shared positive denominator. A zero
//! denominator is the explicit "uncomputed" sentinel a freshly attached
//! component carries before the kernel first runs.

use crate::store::{LaserSamplerMask, RateCoefficient, World, WorldModel};
use crate::MAX_BEAM_NUMBER;
use vstd::prelude::*;

verus! {

/// Steady-state population densities of the excited and ground state for an
/// atomic transition, as exact rationals over a shared denominator.
#[derive(Clone, Copy, Debug, PartialEq, Eq, Structural)]
pub struct TwoLevelPopulation {
    /// Numerator of the ground-state population `ground_num / denom`.
    pub ground_num: u128,
    /// Numerator of the excited-state population `excited_num / denom`.
    pub excited_num: u128,
    /// Shared denominator; `0` means the population is not yet computed.
    pub denom: u128,
}

impl TwoLevelPopulation {
    /// The population has been computed: the sentinel denominator is gone.
    pub open spec fn is_computed(&self) -> bool {
        self.denom > 0
    }

    /// A computed population is a pair of fractions in `[0, 1]` that sum to
    /// exactly one.
    pub open spec fn wf(&self) -> bool {
        self.is_computed() ==> self.ground_num + self.excited_num == self.denom
    }

    /// Derive the ground-state population from the excited-state population,
    /// as `ground = 1 - excited`.
    pub fn calculate_ground_state(&mut self)
        requires
            old(self).is_computed(),
            old(self).excited_num <= old(self).denom,
        ensures
            final(self).ground_num == old(self).denom - old(self).excited_num,
            final(self).excited_num == old(self).excited_num,
            final(self).denom == old(self).denom,
            final(self).wf(),
    {
        self.ground_num = self.denom - self.excited_num;
    }

    /// Derive the excited-state population from the ground-state population,
    /// as `excited = 1 - ground`.
    pub fn calculate_excited_state(&mut self)
        requires
            old(self).is_computed(),
            old(self).ground_num <= old(self).denom,
        ensures
            final(self).excited_num == old(self).denom - old(self).ground_num,
            final(self).ground_num == old(self).ground_num,
            final(self).denom == old(self).denom,
            final(self).wf(),
    {
        self.excited_num = self.denom - self.ground_num;
    }
}

impl Default for TwoLevelPopulation {
    /// The uncomputed sentinel: a zero denominator, the rational analogue of
    /// a not-a-number marker.
    fn default() -> (r: Self)
        ensures
            !r.is_computed(),
            r == (TwoLevelPopulation { ground_num: 0, excited_num: 0, denom: 0 }),
    {
        TwoLevelPopulation { ground_num: 0, excited_num: 0, denom: 0 }
    }
}

/// Total excitation rate `S`: the sum of the per-lane rates over exactly the
/// lanes whose mask is filled. A lane whose mask is not filled contributes
/// nothing, whatever rate it stores.
pub open spec fn masked_sum(rates: Seq<RateCoefficient>, masks: Seq<LaserSamplerMask>) -> int
    decreases rates.len(),
{
    if rates.len() == 0 || masks.len() == 0 {
        0
    } else {
        masked_sum(rates.drop_last(), masks.drop_last()) + if masks.last().filled {
            rates.last().rate as int
        } else {
            0
        }
    }
}

/// The masked sum is non-negative and bounded by one maximal rate per lane.
pub proof fn lemma_masked_sum_bound(rates: Seq<RateCoefficient>, masks: Seq<LaserSamplerMask>)
    ensures
        0 <= masked_sum(rates, masks) <= rates.len() * (u64::MAX as int),
    decreases rates.len(),
{
    if rates.len() == 0 || masks.len() == 0 {
    } else {
        lemma_masked_sum_bound(rates.drop_last(), masks.drop_last());
    }
}

/// Masking law: a lane marked inactive never contributes to the total rate.
/// Two rate arrays that agree on every filled lane give the same masked sum,
/// however the rates on unfilled lanes differ.
pub proof fn lemma_masked_lane_irrelevance(
    r1: Seq<RateCoefficient>,
    r2: Seq<RateCoefficient>,
    m: Seq<LaserSamplerMask>,
)
    requires
        r1.len() == m.len(),
        r2.len() == m.len(),
        forall|i: int| 0 <= i < m.len() && (#[trigger] m[i]).filled ==> r1[i] == r2[i],
    ensures
        masked_sum(r1, m) == masked_sum(r2, m),
    decreases m.len(),
{
    if m.len() > 0 {
        lemma_masked_lane_irrelevance(r1.drop_last(), r2.drop_last(), m.drop_last());
    }
}

/// Masking law at the kernel's result: an entity whose rate arrays agree on
/// every filled lane gets exactly the same steady-state population, however
/// large the rates stored on its inactive lanes are.
pub proof fn lemma_masking_law(
    r1: Seq<RateCoefficient>,
    r2: Seq<RateCoefficient>,
    m: Seq<LaserSamplerMask>,
    gamma: int,
)
    requires
        r1.len() == m.len(),
        r2.len() == m.len(),
        forall|i: int| 0 <= i < m.len() && (#[trigger] m[i]).filled ==> r1[i] == r2[i],
    ensures
        population_for(masked_sum(r1, m), gamma) == population_for(masked_sum(r2, m), gamma),
{
    lemma_masked_lane_irrelevance(r1, r2, m);
}

/// The saturated two-level rate-equation solution for total rate `S` and
/// linewidth `Γ`, as an exact rational: `excited = S / (Γ + 2·S)` and
/// `ground = (Γ + S) / (Γ + 2·S)`.
pub open spec fn population_for(s: int, gamma: int) -> TwoLevelPopulation {
    TwoLevelPopulation {
        ground_num: (gamma + s) as u128,
        excited_num: s as u128,
        denom: (gamma + 2 * s) as u128,
    }
}

/// For every total rate `S ≥ 0` and linewidth `Γ > 0`: the computed
/// population is a pair of fractions summing to exactly one, and the excited
/// fraction lies in `[0, 1/2)` — `2·excited_num < denom` reads
/// `excited < 1/2` over the shared denominator.
pub proof fn lemma_population_range(s: int, gamma: int)
    requires
        0 <= s,
        0 < gamma,
        2 * s + gamma <= u128::MAX,
    ensures
        ({
            let p = population_for(s, gamma);
            &&& p.is_computed()
            &&& p.wf()
            &&& p.ground_num + p.excited_num == p.denom
            &&& 2 * p.excited_num < p.denom
        }),
{
}

/// A total rate of exactly zero gives `excited = 0` and `ground = 1`,
/// exactly.
pub proof fn lemma_population_dark(gamma: int)
    requires
        0 < gamma <= u128::MAX,
    ensures
        population_for(0, gamma).excited_num == 0,
        population_for(0, gamma).ground_num == population_for(0, gamma).denom,
{
}

/// High-intensity saturation limit: with `S = 10⁹·Γ` the excited fraction is
/// within `1/100` of `1/2`. Over the shared denominator,
/// `100·(denom − 2·excited_num) < 2·denom` reads `1/2 − excited < 1/100`,
/// and the excited fraction never exceeds `1/2`.
pub proof fn lemma_high_intensity_limit(s: int, gamma: int)
    requires
        0 < gamma,
        s == 1_000_000_000 * gamma,
        2 * s + gamma <= u128::MAX,
    ensures
        ({
            let p = population_for(s, gamma);
            &&& 2 * p.excited_num < p.denom
            &&& 100 * (p.denom - 2 * p.excited_num) < 2 * p.denom
        }),
{
}

/// Compute the steady-state populations from a total rate and a positive
/// linewidth: the exact rational form of `excited = S/(Γ+2S)`,
/// `ground = 1 − excited`.
pub fn steady_state_population(s: u128, gamma: u64) -> (p: TwoLevelPopulation)
    requires
        gamma > 0,
        2 * s + gamma <= u128::MAX,
    ensures
        p == population_for(s as int, gamma as int),
        p.is_computed(),
        p.wf(),
        p.ground_num + p.excited_num == p.denom,
        2 * p.excited_num < p.denom,
{
    TwoLevelPopulation {
        ground_num: gamma as u128 + s,
        excited_num: s,
        denom: gamma as u128 + 2 * s,
    }
}

/// Sum the rates of the filled lanes. The lane count is bounded by the
/// documented maximum, so the sum fits comfortably in `u128`.
pub fn sum_masked_rates(rates: &Vec<RateCoefficient>, masks: &Vec<LaserSamplerMask>) -> (s: u128)
    requires
        rates@.len() == masks@.len(),
        rates@.len() <= MAX_BEAM_NUMBER,
    ensures
        s == masked_sum(rates@, masks@),
        0 <= s <= rates@.len() * (u64::MAX as int),
{
    let n = rates.len();
    let mut sum: u128 = 0;
    for j in 0..n
        invariant
            n == rates@.len(),
            rates@.len() == masks@.len(),
            rates@.len() <= MAX_BEAM_NUMBER,
            sum == masked_sum(rates@.take(j as int), masks@.take(j as int)),
            sum <= (j as int) * (u64::MAX as int),
    {
        proof {
            assert(rates@.take(j + 1).drop_last() =~= rates@.take(j as int));
            assert(masks@.take(j + 1).drop_last() =~= masks@.take(j as int));
        }
        if masks[j].filled {
            sum = sum + rates[j].rate as u128;
        }
    }
    proof {
        assert(rates@.take(n as int) =~= rates@);
        assert(masks@.take(n as int) =~= masks@);
    }
    sum
}

/// The kernel's effect on one slot: a live entity carrying all four of
/// {transition, rates, masks, population} with matching lane counts gets the
/// steady-state population for its masked rate sum; every other slot keeps
/// its stored population.
pub open spec fn kernel_slot(w: WorldModel, i: int) -> Option<TwoLevelPopulation> {
    match (w.transitions[i], w.rates[i], w.masks[i], w.populations[i]) {
        (Some(t), Some(rc), Some(mk), Some(p)) => {
            if w.alive[i] && rc.contents@.len() == mk.contents@.len() && rc.contents@.len()
                <= MAX_BEAM_NUMBER {
                Some(population_for(masked_sum(rc.contents@, mk.contents@), t.gamma as int))
            } else {
                Some(p)
            }
        },
        _ => w.populations[i],
    }
}

/// The kernel's effect on the whole store: an unordered, entity-local
/// fan-out that rewrites only the population storage.
pub open spec fn kernel_model(w: WorldModel) -> WorldModel {
    WorldModel {
        populations: Seq::new(w.populations.len(), |i: int| kernel_slot(w, i)),
        ..w
    }
}

/// Recompute the steady-state population of every qualifying entity from its
/// masked per-lane rates. Each entity's update is a pure function of that
/// entity's own components, so the result does not depend on the order in
/// which entities are processed.
pub fn compute_two_level_populations(world: &mut World)
    requires
        old(world).wf(),
    ensures
        final(world).wf(),
        final(world)@ == kernel_model(old(world)@),
{
    let ghost w0 = world@;
    let n = world.populations.len();
    for i in 0..n
        invariant
            world.wf(),
            n == w0.populations.len(),
            world@ == (WorldModel { populations: world@.populations, ..w0 }),
            world@.populations.len() == n,
            forall|k: int| 0 <= k < i ==> world@.populations[k] == kernel_slot(w0, k),
            forall|k: int| i <= k < n ==> world@.populations[k] == w0.populations[k],
    {
        let alive_i = world.alive[i];
        let has_pop = world.populations[i].is_some();
        let has_trans = world.transitions[i].is_some();
        let gamma: u64 = match &world.transitions[i] {
            Some(t) => t.gamma,
            None => 0,
        };
        let mut result: Option<TwoLevelPopulation> = None;
        if alive_i && has_trans && has_pop {
            match (&world.rates[i], &world.masks[i]) {
                (Some(rc), Some(mk)) => {
                    if rc.contents.len() == mk.contents.len() && rc.contents.len()
                        <= MAX_BEAM_NUMBER {
                        let s = sum_masked_rates(&rc.contents, &mk.contents);
                        result = Some(steady_state_population(s, gamma));
                    }
                },
                _ => {},
            }
        }
        match result {
            Some(p) => {
                proof {
                    crate::store::lemma_alive_not_free(world@, i);
                    assert(kernel_slot(w0, i as int) == Some(p));
                }
                world.populations.set(i, Some(p));
                proof {
                    assert(world@ =~= (WorldModel { populations: world@.populations, ..w0 }));
                }
            },
            None => {
                proof {
                    assert(world@.populations[i as int] == kernel_slot(w0, i as int));
                }
            },
        }
    }
    proof {
        assert(world@.populations =~= Seq::new(w0.populations.len(), |i: int| kernel_slot(w0, i)));
        assert(world@ =~= kernel_model(w0));
    }
}

/// The representative data-parallel numeric system: recomputes the
/// steady-state two-level population of every qualifying entity.
#[derive(Clone, Copy, Debug, Default)]
pub struct CalculateTwoLevelPopulationSystem;

impl CalculateTwoLevelPopulationSystem {
    /// Run the kernel over the whole store.
    pub fn run(&self, world: &mut World)
        requires
            old(world).wf(),
        ensures
            final(world).wf(),
            final(world)@ == kernel_model(old(world)@),
    {
        compute_two_level_populations(world);
    }
}

} // verus!
