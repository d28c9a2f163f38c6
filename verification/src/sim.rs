//! The simulation configuration and the per-frame population step.
//!
//! A frame advances by reading one immutable snapshot of the whole
//! population and writing a fresh population: no agent ever sees a
//! neighbour that was already updated within the same frame. That
//! discipline is exactly what [`step_population`]'s contract states —
//! every output agent is a function of the input snapshot alone.

use crate::boid::{all_valid, spec_update, unique_ids, Boid, Color};
use crate::fixed::{MAX_DT, MAX_POP, MAX_SPAN, MAX_SPEED, MAX_STRENGTH, SCALE};
use crate::vec2::{norm_sq, Vec2};
use vstd::prelude::*;

verus! {

/// The immutable per-run configuration: window size (fixed-point units;
/// positions wrap modulo these spans) and the optional wall-avoidance
/// rule with its own weight.
#[derive(Clone, Copy, PartialEq, Eq, Structural, Debug)]
pub struct SimConfig {
    pub width: i64,
    pub height: i64,
    pub wall_avoidance: bool,
    pub wall_strength: i64,
}

impl SimConfig {
    /// Spans are positive and within range; the wall weight is bounded.
    pub open spec fn valid(self) -> bool {
        &&& 1 <= self.width <= MAX_SPAN
        &&& 1 <= self.height <= MAX_SPAN
        &&& -MAX_STRENGTH <= self.wall_strength <= MAX_STRENGTH
    }

    /// Build a configuration from plain values.
    pub fn new(width: i64, height: i64, wall_avoidance: bool, wall_strength: i64) -> (r:
        SimConfig)
        requires
            1 <= width <= MAX_SPAN,
            1 <= height <= MAX_SPAN,
            -MAX_STRENGTH <= wall_strength <= MAX_STRENGTH,
        ensures
            r == (SimConfig { width, height, wall_avoidance, wall_strength }),
            r.valid(),
    {
        SimConfig { width, height, wall_avoidance, wall_strength }
    }
}

/// Advance the whole population one frame from a single snapshot.
///
/// Every output agent is `spec_update` of the corresponding input agent
/// against the *input* snapshot — an agent updated earlier in the scan is
/// never visible to one updated later.
pub fn step_population(boids: &Vec<Boid>, cfg: &SimConfig, dt: i64) -> (out: Vec<Boid>)
    requires
        all_valid(boids@),
        boids@.len() <= MAX_POP,
        cfg.valid(),
        0 <= dt <= MAX_DT,
    ensures
        out@.len() == boids@.len(),
        forall|i: int|
            0 <= i < boids@.len() ==> #[trigger] out@[i] == spec_update(
                boids@[i],
                boids@,
                *cfg,
                dt as int,
            ),
        all_valid(out@),
        forall|i: int|
            0 <= i < out@.len() ==> 0 <= (#[trigger] out@[i]).position.x < cfg.width && 0
                <= out@[i].position.y < cfg.height,
        forall|i: int|
            0 <= i < out@.len() ==> ((#[trigger] out@[i]).heading.x != 0 || out@[i].heading.y != 0)
                ==> SCALE * SCALE - 4 * SCALE - 1 <= norm_sq(
                out@[i].heading.x as int,
                out@[i].heading.y as int,
            ) <= SCALE * SCALE + 2 * SCALE,
{
    let mut out: Vec<Boid> = Vec::new();
    let n: usize = boids.len();
    let mut i: usize = 0;
    while i < n
        invariant
            i <= n,
            n == boids@.len(),
            all_valid(boids@),
            n <= MAX_POP,
            cfg.valid(),
            0 <= dt <= MAX_DT,
            out@.len() == i,
            forall|j: int|
                0 <= j < i ==> #[trigger] out@[j] == spec_update(
                    boids@[j],
                    boids@,
                    *cfg,
                    dt as int,
                ),
            forall|j: int| 0 <= j < i ==> (#[trigger] out@[j]).valid(),
            forall|j: int|
                0 <= j < i ==> 0 <= (#[trigger] out@[j]).position.x < cfg.width && 0
                    <= out@[j].position.y < cfg.height,
            forall|j: int|
                0 <= j < i ==> ((#[trigger] out@[j]).heading.x != 0 || out@[j].heading.y != 0)
                    ==> SCALE * SCALE - 4 * SCALE - 1 <= norm_sq(
                    out@[j].heading.x as int,
                    out@[j].heading.y as int,
                ) <= SCALE * SCALE + 2 * SCALE,
        decreases n - i,
    {
        assert(boids@[i as int].valid());
        let mut b: Boid = boids[i];
        b.update(boids, cfg, dt);
        out.push(b);
        i = i + 1;
    }
    out
}

/// The creation-time values of one agent that the caller draws at
/// random: starting position, starting heading, and colour.
#[derive(Clone, Copy, PartialEq, Eq, Structural, Debug)]
pub struct AgentSeed {
    pub position: Vec2,
    pub heading: Vec2,
    pub color: Color,
}

/// Build the starting population from already-drawn creation values
/// (randomness stays with the caller) and the shared per-run parameters.
/// Agent `i` receives the id `i`, so the ids are unique from creation on
/// and stay so for the lifetime of the run
/// (see [`lemma_step_preserves_unique_ids`]).
pub fn create_boids(
    seeds: &Vec<AgentSeed>,
    speed: i64,
    view_distance: i64,
    align_strength: i64,
    cohesion_strength: i64,
    separation_strength: i64,
    size: i64,
) -> (out: Vec<Boid>)
    requires
        forall|i: int|
            0 <= i < seeds@.len() ==> (#[trigger] seeds@[i]).position.bounded(MAX_SPAN as int)
                && seeds@[i].heading.bounded(SCALE as int),
        -MAX_SPEED <= speed <= MAX_SPEED,
        -MAX_STRENGTH <= align_strength <= MAX_STRENGTH,
        -MAX_STRENGTH <= cohesion_strength <= MAX_STRENGTH,
        -MAX_STRENGTH <= separation_strength <= MAX_STRENGTH,
    ensures
        out@.len() == seeds@.len(),
        forall|i: int|
            0 <= i < seeds@.len() ==> #[trigger] out@[i] == (Boid {
                position: seeds@[i].position,
                heading: seeds@[i].heading,
                speed,
                view_distance,
                id: i as u64,
                color: seeds@[i].color,
                align_strength,
                cohesion_strength,
                separation_strength,
                size,
            }),
        all_valid(out@),
        unique_ids(out@),
{
    let mut out: Vec<Boid> = Vec::new();
    let n: usize = seeds.len();
    let mut i: usize = 0;
    while i < n
        invariant
            i <= n,
            n == seeds@.len(),
            forall|j: int|
                0 <= j < n ==> (#[trigger] seeds@[j]).position.bounded(MAX_SPAN as int)
                    && seeds@[j].heading.bounded(SCALE as int),
            -MAX_SPEED <= speed <= MAX_SPEED,
            -MAX_STRENGTH <= align_strength <= MAX_STRENGTH,
            -MAX_STRENGTH <= cohesion_strength <= MAX_STRENGTH,
            -MAX_STRENGTH <= separation_strength <= MAX_STRENGTH,
            out@.len() == i,
            forall|j: int|
                0 <= j < i ==> #[trigger] out@[j] == (Boid {
                    position: seeds@[j].position,
                    heading: seeds@[j].heading,
                    speed,
                    view_distance,
                    id: j as u64,
                    color: seeds@[j].color,
                    align_strength,
                    cohesion_strength,
                    separation_strength,
                    size,
                }),
            forall|j: int| 0 <= j < i ==> (#[trigger] out@[j]).valid(),
        decreases n - i,
    {
        let seed: AgentSeed = seeds[i];
        let b: Boid = Boid::new(
            seed.position,
            seed.heading,
            speed,
            view_distance,
            i as u64,
            seed.color,
            align_strength,
            cohesion_strength,
            separation_strength,
            size,
        );
        out.push(b);
        i = i + 1;
    }
    proof {
        assert forall|a: int, b: int| 0 <= a < b < out@.len() implies (#[trigger] out@[a]).id != (
        #[trigger] out@[b]).id by {
            assert(out@[a].id == a as u64);
            assert(out@[b].id == b as u64);
        }
    }
    out
}

/// Law: a population step keeps the agents' identities, so a population
/// whose ids are unique keeps them unique for the lifetime of the run.
pub proof fn lemma_step_preserves_unique_ids(
    pop: Seq<Boid>,
    out: Seq<Boid>,
    cfg: SimConfig,
    dt: int,
)
    requires
        unique_ids(pop),
        out.len() == pop.len(),
        forall|i: int| 0 <= i < pop.len() ==> #[trigger] out[i] == spec_update(pop[i], pop, cfg, dt),
    ensures
        unique_ids(out),
{
    assert forall|i: int, j: int| 0 <= i < j < out.len() implies (#[trigger] out[i]).id != (
    #[trigger] out[j]).id by {
        assert(out[i].id == pop[i].id);
        assert(out[j].id == pop[j].id);
    }
}

} // verus!
