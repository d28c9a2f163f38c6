use boids::boid::{Boid, Color};
use boids::sim::{create_boids, step_population, AgentSeed, SimConfig};
use boids::vec2::Vec2;
use boids::SCALE;

fn lone_agent(px: i64, py: i64, hx: i64, hy: i64, speed: i64) -> Boid {
    Boid::new(
        Vec2 { x: px, y: py },
        Vec2 { x: hx, y: hy },
        speed,
        100 * SCALE,
        0,
        Color { r: 255, g: 128, b: 128, a: 255 },
        SCALE / 2,
        SCALE / 2,
        SCALE / 2,
        8 * SCALE,
    )
}

#[test]
fn update_wraps_around_the_window() {
    // window (100, 100), position (99, 0), heading (1, 0), speed 10,
    // dt = 1: the new x is (99 + 10) mod 100 = 9
    let cfg = SimConfig::new(100 * SCALE, 100 * SCALE, false, 0);
    let mut a = lone_agent(99 * SCALE, 0, SCALE, 0, 10 * SCALE);
    let pop = vec![a];
    a.update(&pop, &cfg, SCALE);
    assert_eq!(a.position, Vec2 { x: 9 * SCALE, y: 0 });
    assert_eq!(a.heading, Vec2 { x: SCALE, y: 0 });
}

#[test]
fn update_wraps_negative_displacement() {
    // moving left past the edge comes back in on the right
    let cfg = SimConfig::new(100 * SCALE, 100 * SCALE, false, 0);
    let mut a = lone_agent(0, 0, -SCALE, 0, 10 * SCALE);
    let pop = vec![a];
    a.update(&pop, &cfg, SCALE);
    assert_eq!(a.position, Vec2 { x: 90 * SCALE, y: 0 });
}

#[test]
fn update_keeps_position_inside_window() {
    let cfg = SimConfig::new(37 * SCALE, 23 * SCALE, false, 0);
    let speeds = [0, 3 * SCALE, 50 * SCALE, 1000 * SCALE];
    let headings = [
        (SCALE, 0),
        (-SCALE, 0),
        (0, SCALE),
        (0, -SCALE),
        (724, -724),
        (-300, 977),
    ];
    for &speed in speeds.iter() {
        for &(hx, hy) in headings.iter() {
            let mut a = lone_agent(36 * SCALE, 22 * SCALE, hx, hy, speed);
            let pop = vec![a];
            a.update(&pop, &cfg, 7 * SCALE);
            assert!(0 <= a.position.x && a.position.x < 37 * SCALE);
            assert!(0 <= a.position.y && a.position.y < 23 * SCALE);
        }
    }
}

#[test]
fn update_with_zero_dt_keeps_position() {
    let cfg = SimConfig::new(100 * SCALE, 100 * SCALE, false, 0);
    let mut a = lone_agent(42 * SCALE, 17 * SCALE, SCALE, 0, 10 * SCALE);
    let pop = vec![a];
    a.update(&pop, &cfg, 0);
    assert_eq!(a.position, Vec2 { x: 42 * SCALE, y: 17 * SCALE });
}

#[test]
fn update_renormalizes_the_heading() {
    // a lone agent with a short diagonal heading: no rule contributes, so
    // the new heading is the old one rescaled toward unit length
    let cfg = SimConfig::new(100 * SCALE, 100 * SCALE, false, 0);
    let mut a = lone_agent(50 * SCALE, 50 * SCALE, 300, 400, 0);
    let pop = vec![a];
    a.update(&pop, &cfg, SCALE);
    // |(300, 400)| = 500; components scale by 1024/500, truncating
    assert_eq!(a.heading, Vec2 { x: 614, y: 819 });
}

#[test]
fn update_renormalizes_subunit_heading() {
    // a lone agent with the raw heading (1, 1): the new heading is the
    // near-unit diagonal, re-establishing the heading invariant
    let cfg = SimConfig::new(100 * SCALE, 100 * SCALE, false, 0);
    let mut a = lone_agent(50 * SCALE, 50 * SCALE, 1, 1, 0);
    let pop = vec![a];
    a.update(&pop, &cfg, SCALE);
    assert_eq!(a.heading, Vec2 { x: 724, y: 724 });
    let norm_sq = a.heading.x * a.heading.x + a.heading.y * a.heading.y;
    assert!(norm_sq >= SCALE * SCALE - 4 * SCALE - 1);
    assert!(norm_sq <= SCALE * SCALE + 2 * SCALE);
}

#[test]
fn create_boids_assigns_unique_ids() {
    let seeds = vec![
        AgentSeed {
            position: Vec2 { x: 5 * SCALE, y: 6 * SCALE },
            heading: Vec2 { x: SCALE, y: 0 },
            color: Color { r: 1, g: 2, b: 3, a: 255 },
        },
        AgentSeed {
            position: Vec2 { x: 7 * SCALE, y: 8 * SCALE },
            heading: Vec2 { x: 0, y: -SCALE },
            color: Color { r: 4, g: 5, b: 6, a: 255 },
        },
        AgentSeed {
            position: Vec2 { x: 9 * SCALE, y: 10 * SCALE },
            heading: Vec2 { x: 100, y: 100 },
            color: Color { r: 7, g: 8, b: 9, a: 255 },
        },
    ];
    let pop = create_boids(&seeds, 10 * SCALE, 100 * SCALE, SCALE / 2, SCALE / 2, SCALE / 2, 8 * SCALE);
    assert_eq!(pop.len(), 3);
    for (i, b) in pop.iter().enumerate() {
        assert_eq!(b.id, i as u64);
        assert_eq!(b.position, seeds[i].position);
        assert_eq!(b.heading, seeds[i].heading);
        assert_eq!(b.color, seeds[i].color);
        assert_eq!(b.speed, 10 * SCALE);
        assert_eq!(b.view_distance, 100 * SCALE);
    }
}

#[test]
fn step_population_matches_per_agent_updates() {
    let cfg = SimConfig::new(100 * SCALE, 100 * SCALE, false, 0);
    let mut a = lone_agent(0, 0, SCALE, 0, 10 * SCALE);
    a.id = 0;
    let mut b = lone_agent(10 * SCALE, 0, -SCALE, 0, 10 * SCALE);
    b.id = 1;
    let pop = vec![a, b];
    let out = step_population(&pop, &cfg, SCALE);
    assert_eq!(out.len(), 2);
    let mut a2 = a;
    a2.update(&pop, &cfg, SCALE);
    let mut b2 = b;
    b2.update(&pop, &cfg, SCALE);
    assert_eq!(out[0], a2);
    assert_eq!(out[1], b2);
}

#[test]
fn step_population_reads_one_snapshot() {
    // the second agent's update must see the first agent's *old* state:
    // updating in place, one agent at a time, would differ
    let cfg = SimConfig::new(1000 * SCALE, 1000 * SCALE, false, 0);
    let mut a = lone_agent(0, 0, SCALE, 0, 100 * SCALE);
    a.id = 0;
    let mut b = lone_agent(10 * SCALE, 0, 0, SCALE, 100 * SCALE);
    b.id = 1;
    let pop = vec![a, b];
    let out = step_population(&pop, &cfg, SCALE);

    // in-place sequential updating, for contrast
    let mut seq = vec![a, b];
    let mut first = seq[0];
    first.update(&seq, &cfg, SCALE);
    seq[0] = first;
    let mut second = seq[1];
    second.update(&seq, &cfg, SCALE);

    // the snapshot step sees b's old neighbour a unchanged
    let mut b_from_snapshot = b;
    b_from_snapshot.update(&pop, &cfg, SCALE);
    assert_eq!(out[1], b_from_snapshot);
    // while sequential updating fed it a moved, re-steered neighbour
    assert_ne!(out[1], second);
}

#[test]
fn step_population_keeps_ids_and_colors() {
    let cfg = SimConfig::new(100 * SCALE, 100 * SCALE, true, SCALE / 4);
    let mut a = lone_agent(3 * SCALE, 4 * SCALE, SCALE, 0, 10 * SCALE);
    a.id = 7;
    a.color = Color { r: 1, g: 2, b: 3, a: 4 };
    let mut b = lone_agent(90 * SCALE, 90 * SCALE, 0, -SCALE, 10 * SCALE);
    b.id = 9;
    b.color = Color { r: 5, g: 6, b: 7, a: 8 };
    let pop = vec![a, b];
    let out = step_population(&pop, &cfg, SCALE / 2);
    assert_eq!(out[0].id, 7);
    assert_eq!(out[1].id, 9);
    assert_eq!(out[0].color, Color { r: 1, g: 2, b: 3, a: 4 });
    assert_eq!(out[1].color, Color { r: 5, g: 6, b: 7, a: 8 });
    assert_eq!(out[0].speed, a.speed);
    assert_eq!(out[0].view_distance, a.view_distance);
}

#[test]
fn many_frames_keep_the_invariants() {
    // over many frames, positions stay inside the window and headings
    // stay within one fixed-point unit per component
    let cfg = SimConfig::new(640 * SCALE, 480 * SCALE, true, SCALE / 4);
    let mut pop = Vec::new();
    for i in 0..8u64 {
        let mut b = lone_agent(
            (i as i64 * 71 % 640) * SCALE,
            (i as i64 * 133 % 480) * SCALE,
            if i % 2 == 0 { SCALE } else { -SCALE },
            if i % 3 == 0 { 0 } else { 724 },
            25 * SCALE,
        );
        b.id = i;
        b.view_distance = 120 * SCALE;
        pop.push(b);
    }
    for frame in 0..100 {
        pop = step_population(&pop, &cfg, SCALE / 30);
        for b in &pop {
            assert!(0 <= b.position.x && b.position.x < 640 * SCALE, "frame {}", frame);
            assert!(0 <= b.position.y && b.position.y < 480 * SCALE, "frame {}", frame);
            assert!(-SCALE <= b.heading.x && b.heading.x <= SCALE);
            assert!(-SCALE <= b.heading.y && b.heading.y <= SCALE);
        }
    }
}

#[test]
fn config_builder_sets_fields() {
    let cfg = SimConfig::new(640 * SCALE, 480 * SCALE, true, SCALE / 2);
    assert_eq!(cfg.width, 640 * SCALE);
    assert_eq!(cfg.height, 480 * SCALE);
    assert!(cfg.wall_avoidance);
    assert_eq!(cfg.wall_strength, SCALE / 2);
}

#[test]
fn boid_builder_sets_fields() {
    let a = Boid::new(
        Vec2 { x: 11, y: 22 },
        Vec2 { x: 33, y: 44 },
        55,
        66,
        77,
        Color { r: 8, g: 9, b: 10, a: 11 },
        100,
        200,
        300,
        400,
    );
    assert_eq!(a.position, Vec2 { x: 11, y: 22 });
    assert_eq!(a.heading, Vec2 { x: 33, y: 44 });
    assert_eq!(a.speed, 55);
    assert_eq!(a.view_distance, 66);
    assert_eq!(a.id, 77);
    assert_eq!(a.color, Color { r: 8, g: 9, b: 10, a: 11 });
    assert_eq!(a.align_strength, 100);
    assert_eq!(a.cohesion_strength, 200);
    assert_eq!(a.separation_strength, 300);
    assert_eq!(a.size, 400);
}
