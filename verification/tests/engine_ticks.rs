use brainstorm::context::GLContext;
use brainstorm::engine::{
    CameraPose, Parameters, Particle, ParticleEngine, KILL_SENTINEL, RESPAWN_THRESHOLD,
};
use brainstorm::field::FieldProvider;
use brainstorm::fx::SCALE;
use brainstorm::rng::RandomSource;
use brainstorm::vec3::Vec3;

fn v(x: i64, y: i64, z: i64) -> Vec3 {
    Vec3 { x, y, z }
}

/// A field that answers `(1, 0, 0)` everywhere, with magnitude scale 1.
fn uniform_field() -> FieldProvider {
    FieldProvider {
        entries: vec![],
        default_sample: Some(v(SCALE, 0, 0)),
        samples: vec![v(SCALE, 0, 0)],
    }
}

fn wide_open_parameters() -> Parameters {
    Parameters {
        speed_multiplier: SCALE,
        highpass: 0,
        lowpass: SCALE,
        seed_radius_scale: SCALE,
    }
}

fn camera_at_origin() -> CameraPose {
    CameraPose { position: v(0, 0, 0), target: v(0, 0, 0) }
}

fn dist_sq(a: Vec3, b: Vec3) -> i128 {
    let dx = (a.x - b.x) as i128;
    let dy = (a.y - b.y) as i128;
    let dz = (a.z - b.z) as i128;
    dx * dx + dy * dy + dz * dz
}

#[test]
fn construction_staggers_ages_and_scatters_in_the_cube() {
    let engine = ParticleEngine::new(4, uniform_field(), RandomSource::from_seed(7)).unwrap();
    assert_eq!(engine.particles.len(), 4);
    assert_eq!(engine.render.len(), 4);
    assert_eq!(engine.alive_count, 0);
    assert_eq!(engine.field_max_magnitude, SCALE);
    let ages: Vec<u32> = engine.particles.iter().map(|p| p.age).collect();
    assert_eq!(ages, vec![0, 25, 50, 75]);
    for p in engine.particles.iter() {
        assert!(-500_000 <= p.position.x && p.position.x < 500_000);
        assert!(-500_000 <= p.position.y && p.position.y < 500_000);
        assert!(-500_000 <= p.position.z && p.position.z < 500_000);
    }
}

#[test]
fn uniform_field_keeps_every_particle_alive() {
    // Every magnitude is exactly 1.0: not below the low threshold 0 and
    // not above the high threshold 1.0, so all four particles survive
    // every tick, through staggered respawns and all.
    let mut engine = ParticleEngine::new(4, uniform_field(), RandomSource::from_seed(3)).unwrap();
    let params = wide_open_parameters();
    let camera = camera_at_origin();
    for _ in 0..150 {
        engine.update(&params, &camera);
        assert_eq!(engine.alive_count, 4);
        assert!(engine.alive_count <= engine.particles.len());
    }
}

#[test]
fn invalid_sample_excludes_then_respawns() {
    // The field is invalid exactly at the origin and healthy elsewhere.
    let field = FieldProvider {
        entries: vec![(v(0, 0, 0), None)],
        default_sample: Some(v(SCALE, 0, 0)),
        samples: vec![v(SCALE, 0, 0)],
    };
    let mut engine = ParticleEngine::new(1, field, RandomSource::from_seed(11)).unwrap();
    // Stand the one particle exactly on the singularity.
    engine.particles[0] = Particle { position: v(0, 0, 0), age: 10 };
    let params = wide_open_parameters();
    // Seed respawns far from the origin so the respawned particle cannot
    // land on the singularity again.
    let camera = CameraPose { position: v(0, 0, 0), target: v(10 * SCALE, 0, 0) };

    engine.update(&params, &camera);
    // Excluded from the render buffer this tick, marked for respawn.
    assert_eq!(engine.alive_count, 0);
    assert_eq!(engine.particles[0].age, KILL_SENTINEL);
    assert!(engine.particles[0].age >= RESPAWN_THRESHOLD);
    assert_eq!(engine.particles[0].position, v(0, 0, 0));

    engine.update(&params, &camera);
    // Respawned: age was reset and ran one tick, and the slot is back in
    // the render buffer.
    assert_eq!(engine.alive_count, 1);
    assert_eq!(engine.particles[0].age, 1);
}

#[test]
fn respawned_particles_stay_within_the_seeding_radius() {
    // With a zero speed multiplier the integration step is zero, so the
    // position after the tick is exactly the respawn position.
    let field = uniform_field();
    let mut engine = ParticleEngine::new(6, field, RandomSource::from_seed(5)).unwrap();
    for i in 0..6 {
        let pos = engine.particles[i].position;
        engine.particles[i] = Particle { position: pos, age: KILL_SENTINEL };
    }
    let params = Parameters {
        speed_multiplier: 0,
        highpass: 0,
        lowpass: SCALE,
        seed_radius_scale: SCALE,
    };
    let target = v(3 * SCALE, -2 * SCALE, SCALE);
    let camera = CameraPose { position: v(0, 0, 0), target };
    engine.update(&params, &camera);
    // radius = 1.0 * 0.5 + 0.1 = 0.6
    let radius: i128 = 600_000;
    for i in 0..6 {
        assert!(engine.particles[i].age <= 1);
        assert!(dist_sq(engine.particles[i].position, target) < radius * radius);
    }
}

#[test]
fn a_tick_with_no_survivor_leaves_the_distance_seeds() {
    // lowpass 0 retires every particle whose magnitude is positive, so
    // the tick ends with an empty render prefix and untouched seeds.
    let mut engine = ParticleEngine::new(5, uniform_field(), RandomSource::from_seed(2)).unwrap();
    let params = Parameters {
        speed_multiplier: SCALE,
        highpass: SCALE,
        lowpass: 0,
        seed_radius_scale: SCALE,
    };
    let camera = camera_at_origin();
    engine.update(&params, &camera);
    assert_eq!(engine.alive_count, 0);
    assert_eq!(engine.min_camera_dist, i64::MAX);
    assert_eq!(engine.max_camera_dist, 0);
}

#[test]
fn band_boundaries_are_inclusive() {
    // Magnitude scale is 2.0; highpass 0.5 puts the low threshold at
    // exactly 1.0.  A sample of magnitude exactly 1.0 survives; one a
    // millionth below is retired.
    let p_at = v(7 * SCALE, 0, 0);
    let p_below = v(8 * SCALE, 0, 0);
    let field = FieldProvider {
        entries: vec![
            (p_at, Some(v(SCALE, 0, 0))),
            (p_below, Some(v(SCALE - 1, 0, 0))),
        ],
        default_sample: Some(v(2 * SCALE, 0, 0)),
        samples: vec![v(2 * SCALE, 0, 0)],
    };
    let mut engine = ParticleEngine::new(2, field, RandomSource::from_seed(9)).unwrap();
    engine.particles[0] = Particle { position: p_at, age: 0 };
    engine.particles[1] = Particle { position: p_below, age: 0 };
    let params = Parameters {
        speed_multiplier: 0,
        highpass: 500_000,
        lowpass: SCALE,
        seed_radius_scale: SCALE,
    };
    engine.update(&params, &camera_at_origin());
    assert_eq!(engine.alive_count, 1);
    assert_eq!(engine.render[0].position, p_at);
    assert_eq!(engine.particles[0].age, 1);
    assert_eq!(engine.particles[1].age, KILL_SENTINEL);
}

#[test]
fn survivors_keep_pool_slot_order() {
    // Slots 0 and 2 survive, slot 1 is retired: the render buffer holds
    // slot 0's record first and slot 2's second — a stable filter, not a
    // reorder.
    let p0 = v(SCALE, 0, 0);
    let p1 = v(2 * SCALE, 0, 0);
    let p2 = v(3 * SCALE, 0, 0);
    let field = FieldProvider {
        entries: vec![(p1, None)],
        default_sample: Some(v(SCALE, 0, 0)),
        samples: vec![v(SCALE, 0, 0)],
    };
    let mut engine = ParticleEngine::new(3, field, RandomSource::from_seed(4)).unwrap();
    engine.particles[0] = Particle { position: p0, age: 0 };
    engine.particles[1] = Particle { position: p1, age: 0 };
    engine.particles[2] = Particle { position: p2, age: 0 };
    let params = Parameters {
        speed_multiplier: 0,
        highpass: 0,
        lowpass: SCALE,
        seed_radius_scale: SCALE,
    };
    engine.update(&params, &camera_at_origin());
    assert_eq!(engine.alive_count, 2);
    assert_eq!(engine.render[0].position, p0);
    assert_eq!(engine.render[1].position, p2);
}

#[test]
fn survivor_records_carry_scaled_intensity_and_moved_positions() {
    // Speed 1.0 makes the integration step delta * 0.02: the position
    // moves by 0.02 along x, and the intensity is four times the
    // magnitude.
    let start = v(5 * SCALE, 0, 0);
    let mut engine = ParticleEngine::new(1, uniform_field(), RandomSource::from_seed(8)).unwrap();
    engine.particles[0] = Particle { position: start, age: 0 };
    let params = wide_open_parameters();
    engine.update(&params, &camera_at_origin());
    assert_eq!(engine.alive_count, 1);
    let rec = engine.render_record(0);
    assert_eq!(rec.position, v(5 * SCALE + 20_000, 0, 0));
    assert_eq!(rec.intensity, 4 * SCALE);
    assert_eq!(engine.particles[0].position, v(5 * SCALE + 20_000, 0, 0));
}

#[test]
fn camera_distances_track_the_nearest_and_farthest_survivor() {
    let mut engine = ParticleEngine::new(2, uniform_field(), RandomSource::from_seed(6)).unwrap();
    engine.particles[0] = Particle { position: v(3 * SCALE, 4 * SCALE, 0), age: 0 };
    engine.particles[1] = Particle { position: v(6 * SCALE, 8 * SCALE, 0), age: 0 };
    let params = Parameters {
        speed_multiplier: 0,
        highpass: 0,
        lowpass: SCALE,
        seed_radius_scale: SCALE,
    };
    engine.update(&params, &camera_at_origin());
    assert_eq!(engine.alive_count, 2);
    assert_eq!(engine.min_camera_dist, 5 * SCALE);
    assert_eq!(engine.max_camera_dist, 10 * SCALE);
}

#[test]
fn retired_particles_keep_their_integrated_position() {
    // A particle retired by the band filter still moved this tick: the
    // pool keeps its integrated position even though the render buffer
    // excludes it.
    let start = v(SCALE, 0, 0);
    let mut engine = ParticleEngine::new(1, uniform_field(), RandomSource::from_seed(12)).unwrap();
    engine.particles[0] = Particle { position: start, age: 0 };
    let params = Parameters {
        speed_multiplier: SCALE,
        highpass: SCALE,
        lowpass: 0,
        seed_radius_scale: SCALE,
    };
    engine.update(&params, &camera_at_origin());
    assert_eq!(engine.alive_count, 0);
    assert_eq!(engine.particles[0].age, KILL_SENTINEL);
    assert_eq!(engine.particles[0].position, v(SCALE + 20_000, 0, 0));
}

#[test]
fn upload_stages_exactly_the_valid_prefix() {
    let mut engine = ParticleEngine::new(3, uniform_field(), RandomSource::from_seed(10)).unwrap();
    let params = wide_open_parameters();
    engine.update(&params, &camera_at_origin());
    assert_eq!(engine.alive_count, 3);
    let mut context = GLContext::new();
    context.upload(&engine);
    assert_eq!(context.uploaded.len(), 3);
    for i in 0..3 {
        assert_eq!(context.uploaded[i], engine.render[i]);
    }

    // After a tick with no survivors the upload is empty.
    let empty_params = Parameters {
        speed_multiplier: SCALE,
        highpass: SCALE,
        lowpass: 0,
        seed_radius_scale: SCALE,
    };
    engine.update(&empty_params, &camera_at_origin());
    context.upload(&engine);
    assert_eq!(context.uploaded.len(), 0);
}

#[test]
fn an_empty_pool_ticks_to_an_empty_buffer() {
    let mut engine = ParticleEngine::new(0, uniform_field(), RandomSource::from_seed(1)).unwrap();
    assert_eq!(engine.particles.len(), 0);
    engine.update(&wide_open_parameters(), &camera_at_origin());
    assert_eq!(engine.alive_count, 0);
    assert_eq!(engine.min_camera_dist, i64::MAX);
    assert_eq!(engine.max_camera_dist, 0);
}

#[test]
fn seeded_sources_replay_the_same_draws() {
    let mut a = RandomSource::from_seed(123);
    let mut b = RandomSource::from_seed(123);
    for _ in 0..32 {
        assert_eq!(a.draw(-1_000_000, 1_000_000), b.draw(-1_000_000, 1_000_000));
    }
    // A one-wide range pins the draw, and every draw stays in range.
    let mut c = RandomSource::from_seed(77);
    assert_eq!(c.draw(5, 6), 5);
    for _ in 0..100 {
        let d = c.draw(-3, 9);
        assert!(-3 <= d && d < 9);
    }
    // The draws are uniform, not a constant: both values of a two-wide
    // range show up.
    let mut seen = [false, false];
    for _ in 0..200 {
        seen[c.draw(0, 2) as usize] = true;
    }
    assert!(seen[0] && seen[1]);
}
