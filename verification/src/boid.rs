//! The agent ("boid") model and the flocking rule engine.
//!
//! Each rule scans the full population snapshot for neighbours — other
//! agents whose distance is within `view_distance` — and steers by them:
//! alignment toward the average neighbour heading, cohesion toward the
//! perceived centre of mass (minus the own heading), separation away from
//! the summed relative headings, and an optional pull toward the window
//! centre. With no neighbours every rule returns the zero vector: a
//! deliberate "no influence" signal, not an error.
//!
//! Every rule's contract pins its result to a spec-level recursion over
//! the snapshot, so the engine is a pure function of its inputs.

use crate::fixed::{
    div_trunc, fp_mul_spec, iabs, isqrt, lemma_div_trunc_bound, lemma_sqrt_floor_below,
    div_trunc_i64, sqrt_floor, MAX_DT, MAX_POP, MAX_SPAN, MAX_SPEED, MAX_STRENGTH, SCALE,
};
use crate::sim::SimConfig;
use crate::vec2::{norm_sq, spec_normalize, Vec2};
use vstd::prelude::*;

verus! {

/// A cosmetic per-agent colour, set at creation and never read by the
/// simulation itself.
#[derive(Clone, Copy, PartialEq, Eq, Structural, Debug)]
pub struct Color {
    pub r: u8,
    pub g: u8,
    pub b: u8,
    pub a: u8,
}

/// One simulated agent. All scalars are fixed-point (see
/// [`crate::fixed::SCALE`]).
#[derive(Clone, Copy, PartialEq, Eq, Structural, Debug)]
pub struct Boid {
    /// Where the agent is, in window coordinates; wraps modulo the
    /// window spans (toroidal space).
    pub position: Vec2,
    /// Which way the agent points; within one fixed-point unit per
    /// component after every update.
    pub heading: Vec2,
    /// Scalar multiplier turning the heading into displacement per second.
    pub speed: i64,
    /// Neighbour-detection radius (inclusive).
    pub view_distance: i64,
    /// Unique ordinal, only used to tell an agent from itself in scans.
    pub id: u64,
    /// Cosmetic, immutable after creation.
    pub color: Color,
    /// Weight of the alignment rule.
    pub align_strength: i64,
    /// Weight of the cohesion rule.
    pub cohesion_strength: i64,
    /// Weight of the separation rule.
    pub separation_strength: i64,
    /// Visual render scale; never read by the simulation.
    pub size: i64,
}

/// The squared Euclidean distance between two agents' positions.
pub open spec fn dist_sq(a: Boid, b: Boid) -> int {
    norm_sq(a.position.x - b.position.x, a.position.y - b.position.y)
}

/// The Euclidean distance between two agents' positions, rounded down.
pub open spec fn spec_distance(a: Boid, b: Boid) -> int {
    sqrt_floor(dist_sq(a, b) as nat) as int
}

/// Whether `s` counts `b` as a neighbour: a different agent (by id)
/// within `s`'s view distance, inclusively.
pub open spec fn in_view(s: Boid, b: Boid) -> bool {
    b.id != s.id && spec_distance(s, b) <= s.view_distance
}

/// How many agents of the snapshot `s` counts as neighbours.
pub open spec fn neighbor_count(s: Boid, pop: Seq<Boid>) -> int
    decreases pop.len(),
{
    if pop.len() == 0 {
        0
    } else {
        neighbor_count(s, pop.drop_last()) + if in_view(s, pop.last()) {
            1int
        } else {
            0int
        }
    }
}

/// The sum of `f` over the neighbours of `s` in the snapshot.
pub open spec fn neighbor_sum(s: Boid, pop: Seq<Boid>, f: spec_fn(Boid) -> int) -> int
    decreases pop.len(),
{
    if pop.len() == 0 {
        0
    } else {
        neighbor_sum(s, pop.drop_last(), f) + if in_view(s, pop.last()) {
            f(pop.last())
        } else {
            0int
        }
    }
}

/// The summand read by alignment: a neighbour's heading, x component.
pub open spec fn f_heading_x() -> spec_fn(Boid) -> int {
    |b: Boid| b.heading.x as int
}

/// The summand read by alignment: a neighbour's heading, y component.
pub open spec fn f_heading_y() -> spec_fn(Boid) -> int {
    |b: Boid| b.heading.y as int
}

/// The summand read by cohesion: a neighbour's position, x component.
pub open spec fn f_position_x() -> spec_fn(Boid) -> int {
    |b: Boid| b.position.x as int
}

/// The summand read by cohesion: a neighbour's position, y component.
pub open spec fn f_position_y() -> spec_fn(Boid) -> int {
    |b: Boid| b.position.y as int
}

/// The summand read by separation: a neighbour's heading relative to
/// `s`'s own, x component.
pub open spec fn f_relative_x(s: Boid) -> spec_fn(Boid) -> int {
    |b: Boid| b.heading.x - s.heading.x
}

/// The summand read by separation: a neighbour's heading relative to
/// `s`'s own, y component.
pub open spec fn f_relative_y(s: Boid) -> spec_fn(Boid) -> int {
    |b: Boid| b.heading.y - s.heading.y
}

/// What alignment returns: the neighbours' average heading, normalized;
/// the zero vector with no neighbours.
pub open spec fn spec_alignment(s: Boid, pop: Seq<Boid>) -> (int, int) {
    let c = neighbor_count(s, pop);
    if c == 0 {
        (0, 0)
    } else {
        spec_normalize(
            div_trunc(neighbor_sum(s, pop, f_heading_x()), c),
            div_trunc(neighbor_sum(s, pop, f_heading_y()), c),
        )
    }
}

/// What cohesion returns: the neighbours' average position minus the
/// agent's own heading, normalized; the zero vector with no neighbours.
pub open spec fn spec_cohesion(s: Boid, pop: Seq<Boid>) -> (int, int) {
    let c = neighbor_count(s, pop);
    if c == 0 {
        (0, 0)
    } else {
        spec_normalize(
            div_trunc(neighbor_sum(s, pop, f_position_x()), c) - s.heading.x,
            div_trunc(neighbor_sum(s, pop, f_position_y()), c) - s.heading.y,
        )
    }
}

/// What separation returns: the negated sum of the neighbours' headings
/// relative to the agent's own, normalized; the zero vector with no
/// neighbours.
pub open spec fn spec_separation(s: Boid, pop: Seq<Boid>) -> (int, int) {
    let c = neighbor_count(s, pop);
    if c == 0 {
        (0, 0)
    } else {
        spec_normalize(
            -neighbor_sum(s, pop, f_relative_x(s)),
            -neighbor_sum(s, pop, f_relative_y(s)),
        )
    }
}

/// What wall avoidance returns: the normalized pull from the agent's
/// position toward the window centre.
pub open spec fn spec_avoid_walls(s: Boid, cfg: SimConfig) -> (int, int) {
    spec_normalize(
        cfg.width / 2 - s.position.x,
        cfg.height / 2 - s.position.y,
    )
}

/// What the rule engine returns: the agent's heading plus the weighted
/// rules (wall avoidance only when enabled), normalized. A zero sum
/// normalizes to zero rather than failing.
pub open spec fn spec_accumulate_forces(s: Boid, pop: Seq<Boid>, cfg: SimConfig) -> (int, int) {
    let al = spec_alignment(s, pop);
    let co = spec_cohesion(s, pop);
    let se = spec_separation(s, pop);
    let wa = spec_avoid_walls(s, cfg);
    spec_normalize(
        s.heading.x + fp_mul_spec(s.align_strength as int, al.0) + fp_mul_spec(
            s.cohesion_strength as int,
            co.0,
        ) + fp_mul_spec(s.separation_strength as int, se.0) + if cfg.wall_avoidance {
            fp_mul_spec(cfg.wall_strength as int, wa.0)
        } else {
            0int
        },
        s.heading.y + fp_mul_spec(s.align_strength as int, al.1) + fp_mul_spec(
            s.cohesion_strength as int,
            co.1,
        ) + fp_mul_spec(s.separation_strength as int, se.1) + if cfg.wall_avoidance {
            fp_mul_spec(cfg.wall_strength as int, wa.1)
        } else {
            0int
        },
    )
}

/// What one frame does to one agent: the heading becomes the engine's
/// output, and the position advances by `speed * heading * dt`, wrapped
/// into the window per axis.
pub open spec fn spec_update(s: Boid, pop: Seq<Boid>, cfg: SimConfig, dt: int) -> Boid {
    let h = spec_accumulate_forces(s, pop, cfg);
    let dx = fp_mul_spec(fp_mul_spec(s.speed as int, h.0), dt);
    let dy = fp_mul_spec(fp_mul_spec(s.speed as int, h.1), dt);
    Boid {
        heading: Vec2 { x: h.0 as i64, y: h.1 as i64 },
        position: Vec2 {
            x: ((s.position.x + dx) % (cfg.width as int)) as i64,
            y: ((s.position.y + dy) % (cfg.height as int)) as i64,
        },
        ..s
    }
}

impl Boid {
    /// An agent the simulation accepts: position and heading in range,
    /// and the per-agent scalars bounded so that no frame overflows.
    pub open spec fn valid(self) -> bool {
        &&& self.position.bounded(MAX_SPAN as int)
        &&& self.heading.bounded(SCALE as int)
        &&& -MAX_SPEED <= self.speed <= MAX_SPEED
        &&& -MAX_STRENGTH <= self.align_strength <= MAX_STRENGTH
        &&& -MAX_STRENGTH <= self.cohesion_strength <= MAX_STRENGTH
        &&& -MAX_STRENGTH <= self.separation_strength <= MAX_STRENGTH
    }

    /// The Euclidean distance to `other`, rounded down.
    pub fn distance_from(&self, other: &Boid) -> (r: i64)
        requires
            self.position.bounded(MAX_SPAN as int),
            other.position.bounded(MAX_SPAN as int),
        ensures
            r == spec_distance(*self, *other),
            r >= 0,
    {
        let dx: i64 = self.position.x - other.position.x;
        let dy: i64 = self.position.y - other.position.y;
        let adx: u64 = iabs(dx);
        let ady: u64 = iabs(dy);
        proof {
            assert(adx as int * adx as int == dx as int * dx as int
                && ady as int * ady as int == dy as int * dy as int
                && adx as int * adx as int + ady as int * ady as int
                    <= 0x200_0000_0000 * 0x200_0000_0000 + 0x200_0000_0000 * 0x200_0000_0000)
                by (nonlinear_arith)
                requires
                    adx as int == dx as int || adx as int == -(dx as int),
                    ady as int == dy as int || ady as int == -(dy as int),
                    0 <= adx as int <= 0x200_0000_0000,
                    0 <= ady as int <= 0x200_0000_0000,
            ;
        }
        let n: u128 = (adx as u128) * (adx as u128) + (ady as u128) * (ady as u128);
        assert(n as int == dist_sq(*self, *other));
        let m: u64 = isqrt(n);
        proof {
            assert((0x8000_0000_0000 as nat) * (0x8000_0000_0000 as nat)
                == 0x4000_0000_0000_0000_0000_0000) by (nonlinear_arith);
            lemma_sqrt_floor_below(n as nat, 0x8000_0000_0000 as nat);
        }
        m as i64
    }

    /// Alignment: the average heading of the in-range neighbours,
    /// normalized; zero with no neighbours.
    pub fn alignment(&self, boids: &Vec<Boid>) -> (r: Vec2)
        requires
            self.valid(),
            all_valid(boids@),
            boids@.len() <= MAX_POP,
        ensures
            (r.x as int, r.y as int) == spec_alignment(*self, boids@),
            r.bounded(SCALE as int),
            neighbor_count(*self, boids@) == 0 ==> r == (Vec2 { x: 0, y: 0 }),
            (r.x != 0 || r.y != 0) ==> SCALE * SCALE - 4 * SCALE - 1 <= norm_sq(
                r.x as int,
                r.y as int,
            ) <= SCALE * SCALE + 2 * SCALE,
    {
        let mut sx: i64 = 0;
        let mut sy: i64 = 0;
        let mut cnt: i64 = 0;
        let n: usize = boids.len();
        let mut i: usize = 0;
        while i < n
            invariant
                i <= n,
                n == boids@.len(),
                n <= MAX_POP,
                self.valid(),
                all_valid(boids@),
                cnt == neighbor_count(*self, boids@.subrange(0, i as int)),
                sx == neighbor_sum(*self, boids@.subrange(0, i as int), f_heading_x()),
                sy == neighbor_sum(*self, boids@.subrange(0, i as int), f_heading_y()),
                0 <= cnt <= i,
                -cnt * SCALE <= sx <= cnt * SCALE,
                -cnt * SCALE <= sy <= cnt * SCALE,
            decreases n - i,
        {
            let b: Boid = boids[i];
            assert(boids@[i as int].valid());
            proof {
                lemma_scan_extend(*self, boids@.subrange(0, i as int), b, f_heading_x());
                lemma_scan_extend(*self, boids@.subrange(0, i as int), b, f_heading_y());
                assert(boids@.subrange(0, i as int).push(b) =~= boids@.subrange(
                    0,
                    i as int + 1,
                ));
            }
            if b.id != self.id {
                let d: i64 = self.distance_from(&b);
                if d <= self.view_distance {
                    sx = sx + b.heading.x;
                    sy = sy + b.heading.y;
                    cnt = cnt + 1;
                }
            }
            i = i + 1;
        }
        proof {
            assert(boids@.subrange(0, n as int) =~= boids@);
        }
        if cnt > 0 {
            proof {
                lemma_div_trunc_bound(sx as int, cnt as int, SCALE as int);
                lemma_div_trunc_bound(sy as int, cnt as int, SCALE as int);
            }
            let avg = Vec2 { x: div_trunc_i64(sx, cnt), y: div_trunc_i64(sy, cnt) };
            avg.normalize()
        } else {
            Vec2 { x: 0, y: 0 }
        }
    }

    /// Cohesion: the neighbours' average position minus the own heading,
    /// normalized; zero with no neighbours.
    pub fn cohesion(&self, boids: &Vec<Boid>) -> (r: Vec2)
        requires
            self.valid(),
            all_valid(boids@),
            boids@.len() <= MAX_POP,
        ensures
            (r.x as int, r.y as int) == spec_cohesion(*self, boids@),
            r.bounded(SCALE as int),
            neighbor_count(*self, boids@) == 0 ==> r == (Vec2 { x: 0, y: 0 }),
            (r.x != 0 || r.y != 0) ==> SCALE * SCALE - 4 * SCALE - 1 <= norm_sq(
                r.x as int,
                r.y as int,
            ) <= SCALE * SCALE + 2 * SCALE,
    {
        let mut sx: i64 = 0;
        let mut sy: i64 = 0;
        let mut cnt: i64 = 0;
        let n: usize = boids.len();
        let mut i: usize = 0;
        while i < n
            invariant
                i <= n,
                n == boids@.len(),
                n <= MAX_POP,
                self.valid(),
                all_valid(boids@),
                cnt == neighbor_count(*self, boids@.subrange(0, i as int)),
                sx == neighbor_sum(*self, boids@.subrange(0, i as int), f_position_x()),
                sy == neighbor_sum(*self, boids@.subrange(0, i as int), f_position_y()),
                0 <= cnt <= i,
                -cnt * MAX_SPAN <= sx <= cnt * MAX_SPAN,
                -cnt * MAX_SPAN <= sy <= cnt * MAX_SPAN,
            decreases n - i,
        {
            let b: Boid = boids[i];
            assert(boids@[i as int].valid());
            proof {
                lemma_scan_extend(*self, boids@.subrange(0, i as int), b, f_position_x());
                lemma_scan_extend(*self, boids@.subrange(0, i as int), b, f_position_y());
                assert(boids@.subrange(0, i as int).push(b) =~= boids@.subrange(
                    0,
                    i as int + 1,
                ));
            }
            if b.id != self.id {
                let d: i64 = self.distance_from(&b);
                if d <= self.view_distance {
                    sx = sx + b.position.x;
                    sy = sy + b.position.y;
                    cnt = cnt + 1;
                }
            }
            i = i + 1;
        }
        proof {
            assert(boids@.subrange(0, n as int) =~= boids@);
        }
        if cnt > 0 {
            proof {
                lemma_div_trunc_bound(sx as int, cnt as int, MAX_SPAN as int);
                lemma_div_trunc_bound(sy as int, cnt as int, MAX_SPAN as int);
            }
            let avg = Vec2 {
                x: div_trunc_i64(sx, cnt) - self.heading.x,
                y: div_trunc_i64(sy, cnt) - self.heading.y,
            };
            avg.normalize()
        } else {
            Vec2 { x: 0, y: 0 }
        }
    }

    /// Separation: the negated sum of the neighbours' headings relative
    /// to the own heading, normalized; zero with no neighbours.
    pub fn separation(&self, boids: &Vec<Boid>) -> (r: Vec2)
        requires
            self.valid(),
            all_valid(boids@),
            boids@.len() <= MAX_POP,
        ensures
            (r.x as int, r.y as int) == spec_separation(*self, boids@),
            r.bounded(SCALE as int),
            neighbor_count(*self, boids@) == 0 ==> r == (Vec2 { x: 0, y: 0 }),
            (r.x != 0 || r.y != 0) ==> SCALE * SCALE - 4 * SCALE - 1 <= norm_sq(
                r.x as int,
                r.y as int,
            ) <= SCALE * SCALE + 2 * SCALE,
    {
        let mut sx: i64 = 0;
        let mut sy: i64 = 0;
        let mut cnt: i64 = 0;
        let n: usize = boids.len();
        let mut i: usize = 0;
        while i < n
            invariant
                i <= n,
                n == boids@.len(),
                n <= MAX_POP,
                self.valid(),
                all_valid(boids@),
                cnt == neighbor_count(*self, boids@.subrange(0, i as int)),
                sx == neighbor_sum(*self, boids@.subrange(0, i as int), f_relative_x(*self)),
                sy == neighbor_sum(*self, boids@.subrange(0, i as int), f_relative_y(*self)),
                0 <= cnt <= i,
                -(cnt * SCALE + cnt * SCALE) <= sx <= cnt * SCALE + cnt * SCALE,
                -(cnt * SCALE + cnt * SCALE) <= sy <= cnt * SCALE + cnt * SCALE,
            decreases n - i,
        {
            let b: Boid = boids[i];
            assert(boids@[i as int].valid());
            proof {
                lemma_scan_extend(*self, boids@.subrange(0, i as int), b, f_relative_x(*self));
                lemma_scan_extend(*self, boids@.subrange(0, i as int), b, f_relative_y(*self));
                assert(boids@.subrange(0, i as int).push(b) =~= boids@.subrange(
                    0,
                    i as int + 1,
                ));
            }
            if b.id != self.id {
                let d: i64 = self.distance_from(&b);
                if d <= self.view_distance {
                    sx = sx + (b.heading.x - self.heading.x);
                    sy = sy + (b.heading.y - self.heading.y);
                    cnt = cnt + 1;
                }
            }
            i = i + 1;
        }
        proof {
            assert(boids@.subrange(0, n as int) =~= boids@);
        }
        if cnt > 0 {
            let v = Vec2 { x: -sx, y: -sy };
            v.normalize()
        } else {
            Vec2 { x: 0, y: 0 }
        }
    }

    /// Wall avoidance: the normalized pull from the agent's position
    /// toward the window centre.
    pub fn avoid_walls(&self, cfg: &SimConfig) -> (r: Vec2)
        requires
            self.position.bounded(MAX_SPAN as int),
            cfg.valid(),
        ensures
            (r.x as int, r.y as int) == spec_avoid_walls(*self, *cfg),
            r.bounded(SCALE as int),
            (r.x != 0 || r.y != 0) ==> SCALE * SCALE - 4 * SCALE - 1 <= norm_sq(
                r.x as int,
                r.y as int,
            ) <= SCALE * SCALE + 2 * SCALE,
    {
        let cx: i64 = ((cfg.width as u64) / 2) as i64;
        let cy: i64 = ((cfg.height as u64) / 2) as i64;
        let v = Vec2 { x: cx - self.position.x, y: cy - self.position.y };
        v.normalize()
    }

    /// The combined steering vector: own heading plus the weighted rules
    /// (wall avoidance only when the configuration enables it),
    /// normalized. A zero sum yields the zero vector.
    pub fn accumulate_forces(&self, boids: &Vec<Boid>, cfg: &SimConfig) -> (r: Vec2)
        requires
            self.valid(),
            all_valid(boids@),
            boids@.len() <= MAX_POP,
            cfg.valid(),
        ensures
            (r.x as int, r.y as int) == spec_accumulate_forces(*self, boids@, *cfg),
            r.bounded(SCALE as int),
            (r.x != 0 || r.y != 0) ==> SCALE * SCALE - 4 * SCALE - 1 <= norm_sq(
                r.x as int,
                r.y as int,
            ) <= SCALE * SCALE + 2 * SCALE,
    {
        let al = self.alignment(boids);
        let co = self.cohesion(boids);
        let se = self.separation(boids);
        let mut sx: i64 = self.heading.x + weighted(self.align_strength, al.x) + weighted(
            self.cohesion_strength,
            co.x,
        ) + weighted(self.separation_strength, se.x);
        let mut sy: i64 = self.heading.y + weighted(self.align_strength, al.y) + weighted(
            self.cohesion_strength,
            co.y,
        ) + weighted(self.separation_strength, se.y);
        if cfg.wall_avoidance {
            let wa = self.avoid_walls(cfg);
            sx = sx + weighted(cfg.wall_strength, wa.x);
            sy = sy + weighted(cfg.wall_strength, wa.y);
        }
        let v = Vec2 { x: sx, y: sy };
        v.normalize()
    }

    /// Advance this agent one frame against the snapshot `boids`: adopt
    /// the rule engine's combined heading, then move by
    /// `speed * heading * dt`, wrapping into the window per axis. The
    /// new position always lies inside the window.
    pub fn update(&mut self, boids: &Vec<Boid>, cfg: &SimConfig, dt: i64)
        requires
            old(self).valid(),
            all_valid(boids@),
            boids@.len() <= MAX_POP,
            cfg.valid(),
            0 <= dt <= MAX_DT,
        ensures
            *final(self) == spec_update(*old(self), boids@, *cfg, dt as int),
            final(self).valid(),
            (final(self).heading.x != 0 || final(self).heading.y != 0) ==> SCALE * SCALE - 4 * SCALE - 1 <= norm_sq(
                final(self).heading.x as int,
                final(self).heading.y as int,
            ) <= SCALE * SCALE + 2 * SCALE,
            0 <= final(self).position.x < cfg.width,
            0 <= final(self).position.y < cfg.height,
    {
        let h = self.accumulate_forces(boids, cfg);
        let dx: i64 = displacement(self.speed, h.x, dt);
        let dy: i64 = displacement(self.speed, h.y, dt);
        let px: i64 = crate::fixed::wrap_coord(self.position.x + dx, cfg.width);
        let py: i64 = crate::fixed::wrap_coord(self.position.y + dy, cfg.height);
        self.heading = h;
        self.position = Vec2 { x: px, y: py };
    }

    /// Build an agent from plain values, all bounds checked by contract.
    pub fn new(
        position: Vec2,
        heading: Vec2,
        speed: i64,
        view_distance: i64,
        id: u64,
        color: Color,
        align_strength: i64,
        cohesion_strength: i64,
        separation_strength: i64,
        size: i64,
    ) -> (r: Boid)
        requires
            position.bounded(MAX_SPAN as int),
            heading.bounded(SCALE as int),
            -MAX_SPEED <= speed <= MAX_SPEED,
            -MAX_STRENGTH <= align_strength <= MAX_STRENGTH,
            -MAX_STRENGTH <= cohesion_strength <= MAX_STRENGTH,
            -MAX_STRENGTH <= separation_strength <= MAX_STRENGTH,
        ensures
            r == (Boid {
                position,
                heading,
                speed,
                view_distance,
                id,
                color,
                align_strength,
                cohesion_strength,
                separation_strength,
                size,
            }),
            r.valid(),
    {
        Boid {
            position,
            heading,
            speed,
            view_distance,
            id,
            color,
            align_strength,
            cohesion_strength,
            separation_strength,
            size,
        }
    }
}

/// Every agent of the snapshot is one the simulation accepts.
pub open spec fn all_valid(pop: Seq<Boid>) -> bool {
    forall|i: int| 0 <= i < pop.len() ==> (#[trigger] pop[i]).valid()
}

/// No two agents of the snapshot share an id.
pub open spec fn unique_ids(pop: Seq<Boid>) -> bool {
    forall|i: int, j: int|
        0 <= i < j < pop.len() ==> (#[trigger] pop[i]).id != (#[trigger] pop[j]).id
}

/// One weighted rule contribution, bounded by the weight's own range.
fn weighted(w: i64, c: i64) -> (r: i64)
    requires
        -MAX_STRENGTH <= w <= MAX_STRENGTH,
        -SCALE <= c <= SCALE,
    ensures
        r == fp_mul_spec(w as int, c as int),
        -MAX_STRENGTH <= r <= MAX_STRENGTH,
{
    proof {
        assert(-(0x10_0000 * 1024) <= w as int * c as int <= 0x10_0000 * 1024)
            by (nonlinear_arith)
            requires
                -0x10_0000 <= w <= 0x10_0000,
                -1024 <= c <= 1024,
        ;
        lemma_div_trunc_bound(w as int * c as int, SCALE as int, MAX_STRENGTH as int);
    }
    crate::fixed::fp_mul(w, c)
}

/// The per-axis displacement of one frame: `speed * heading * dt`, each
/// product rescaled to fixed point.
fn displacement(speed: i64, h: i64, dt: i64) -> (r: i64)
    requires
        -MAX_SPEED <= speed <= MAX_SPEED,
        -SCALE <= h <= SCALE,
        0 <= dt <= MAX_DT,
    ensures
        r == fp_mul_spec(fp_mul_spec(speed as int, h as int), dt as int),
        -0x100_0000_0000 <= r <= 0x100_0000_0000,
{
    proof {
        assert(-(0x4000_0000 * 1024) <= speed as int * h as int <= 0x4000_0000 * 1024)
            by (nonlinear_arith)
            requires
                -0x4000_0000 <= speed <= 0x4000_0000,
                -1024 <= h <= 1024,
        ;
        lemma_div_trunc_bound(speed as int * h as int, SCALE as int, MAX_SPEED as int);
    }
    let v: i64 = crate::fixed::fp_mul(speed, h);
    proof {
        assert(-(0x4000_0000 * 0x10_0000) <= v as int * dt as int <= 0x4000_0000 * 0x10_0000)
            by (nonlinear_arith)
            requires
                -0x4000_0000 <= v <= 0x4000_0000,
                0 <= dt <= 0x10_0000,
        ;
        lemma_div_trunc_bound(v as int * dt as int, SCALE as int, 0x100_0000_0000);
    }
    crate::fixed::fp_mul(v, dt)
}

/// Extending a scanned prefix by one agent extends the neighbour count
/// and each neighbour sum by that agent's contribution.
proof fn lemma_scan_extend(s: Boid, pre: Seq<Boid>, b: Boid, f: spec_fn(Boid) -> int)
    ensures
        neighbor_count(s, pre.push(b)) == neighbor_count(s, pre) + if in_view(s, b) {
            1int
        } else {
            0int
        },
        neighbor_sum(s, pre.push(b), f) == neighbor_sum(s, pre, f) + if in_view(s, b) {
            f(b)
        } else {
            0int
        },
{
    assert(pre.push(b).drop_last() =~= pre);
    assert(pre.push(b).last() == b);
}

/// Law: alignment's output is the zero vector or unit-length up to
/// fixed-point rounding — its squared norm lies in
/// `[SCALE*SCALE - 4*SCALE - 1, SCALE*SCALE + 2*SCALE]`. It is zero
/// exactly with no neighbours or a zero average neighbour heading.
pub proof fn lemma_alignment_near_unit(s: Boid, pop: Seq<Boid>)
    ensures
        ({
            let (ux, uy) = spec_alignment(s, pop);
            (ux == 0 && uy == 0) || (SCALE * SCALE - 4 * SCALE - 1 <= norm_sq(ux, uy) <= SCALE
                * SCALE + 2 * SCALE)
        }),
{
    let c = neighbor_count(s, pop);
    if c != 0 {
        let vx = div_trunc(neighbor_sum(s, pop, f_heading_x()), c);
        let vy = div_trunc(neighbor_sum(s, pop, f_heading_y()), c);
        if vx != 0 || vy != 0 {
            crate::vec2::lemma_normalize_near_unit(vx, vy);
        }
    }
}

/// Law: cohesion's output is the zero vector or unit-length up to
/// fixed-point rounding. It is zero exactly with no neighbours or when
/// the average neighbour position equals the own heading.
pub proof fn lemma_cohesion_near_unit(s: Boid, pop: Seq<Boid>)
    ensures
        ({
            let (ux, uy) = spec_cohesion(s, pop);
            (ux == 0 && uy == 0) || (SCALE * SCALE - 4 * SCALE - 1 <= norm_sq(ux, uy) <= SCALE
                * SCALE + 2 * SCALE)
        }),
{
    let c = neighbor_count(s, pop);
    if c != 0 {
        let vx = div_trunc(neighbor_sum(s, pop, f_position_x()), c) - s.heading.x;
        let vy = div_trunc(neighbor_sum(s, pop, f_position_y()), c) - s.heading.y;
        if vx != 0 || vy != 0 {
            crate::vec2::lemma_normalize_near_unit(vx, vy);
        }
    }
}

/// Law: separation's output is the zero vector or unit-length up to
/// fixed-point rounding. It is zero exactly with no neighbours or a zero
/// relative-heading sum.
pub proof fn lemma_separation_near_unit(s: Boid, pop: Seq<Boid>)
    ensures
        ({
            let (ux, uy) = spec_separation(s, pop);
            (ux == 0 && uy == 0) || (SCALE * SCALE - 4 * SCALE - 1 <= norm_sq(ux, uy) <= SCALE
                * SCALE + 2 * SCALE)
        }),
{
    let c = neighbor_count(s, pop);
    if c != 0 {
        let vx = -neighbor_sum(s, pop, f_relative_x(s));
        let vy = -neighbor_sum(s, pop, f_relative_y(s));
        if vx != 0 || vy != 0 {
            crate::vec2::lemma_normalize_near_unit(vx, vy);
        }
    }
}

/// Law: distance is symmetric.
pub proof fn lemma_distance_symmetric(a: Boid, b: Boid)
    ensures
        spec_distance(a, b) == spec_distance(b, a),
{
    assert(dist_sq(a, b) == dist_sq(b, a)) by (nonlinear_arith);
}

/// Law: the distance from an agent to itself is zero.
pub proof fn lemma_distance_self_zero(a: Boid)
    ensures
        spec_distance(a, a) == 0,
{
    assert(dist_sq(a, a) == 0) by (nonlinear_arith);
    assert(sqrt_floor(0) == 0);
}

/// Law: the rule engine is a pure function of agent, snapshot and
/// configuration — two results of the same inputs are the same result,
/// however often it runs.
pub proof fn lemma_rule_engine_deterministic(
    s: Boid,
    pop: Seq<Boid>,
    cfg: SimConfig,
    r1: (int, int),
    r2: (int, int),
)
    requires
        r1 == spec_accumulate_forces(s, pop, cfg),
        r2 == spec_accumulate_forces(s, pop, cfg),
    ensures
        r1 == r2,
{
}

} // verus!

