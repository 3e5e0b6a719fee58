use brainstorm::engine::ParticleEngine;
use brainstorm::field::{max_magnitude, ConfigurationError, FieldProvider};
use brainstorm::fx::SCALE;
use brainstorm::rng::RandomSource;
use brainstorm::vec3::Vec3;

fn v(x: i64, y: i64, z: i64) -> Vec3 {
    Vec3 { x, y, z }
}

#[test]
fn sampling_returns_the_default_away_from_entries() {
    let field = FieldProvider {
        entries: vec![(v(SCALE, 0, 0), None)],
        default_sample: Some(v(0, SCALE, 0)),
        samples: vec![v(0, SCALE, 0)],
    };
    assert_eq!(field.sample_delta(&v(0, 0, 0)), Some(v(0, SCALE, 0)));
    assert_eq!(field.sample_delta(&v(7, -3, 9)), Some(v(0, SCALE, 0)));
}

#[test]
fn sampling_returns_the_pinned_entry_at_its_position() {
    let field = FieldProvider {
        entries: vec![(v(SCALE, 0, 0), None), (v(0, SCALE, 0), Some(v(5, 5, 5)))],
        default_sample: Some(v(0, SCALE, 0)),
        samples: vec![v(0, SCALE, 0)],
    };
    assert_eq!(field.sample_delta(&v(SCALE, 0, 0)), None);
    assert_eq!(field.sample_delta(&v(0, SCALE, 0)), Some(v(5, 5, 5)));
}

#[test]
fn the_first_matching_entry_wins() {
    let field = FieldProvider {
        entries: vec![(v(1, 2, 3), Some(v(10, 0, 0))), (v(1, 2, 3), Some(v(20, 0, 0)))],
        default_sample: None,
        samples: vec![v(SCALE, 0, 0)],
    };
    assert_eq!(field.sample_delta(&v(1, 2, 3)), Some(v(10, 0, 0)));
}

#[test]
fn max_magnitude_takes_the_greatest_sample_length() {
    let samples = vec![v(SCALE, 0, 0), v(3 * SCALE, 4 * SCALE, 0), v(0, 0, 2 * SCALE)];
    assert_eq!(max_magnitude(&samples), 5 * SCALE);
    let empty: Vec<Vec3> = vec![];
    assert_eq!(max_magnitude(&empty), 0);
}

#[test]
fn construction_fails_exactly_on_an_empty_sample_set() {
    let field = FieldProvider {
        entries: vec![],
        default_sample: Some(v(SCALE, 0, 0)),
        samples: vec![],
    };
    let r = ParticleEngine::new(4, field, RandomSource::from_seed(1));
    match r {
        Err(e) => assert_eq!(e, ConfigurationError::EmptySampleSet),
        Ok(_) => panic!("construction must fail on an empty sample set"),
    }

    let field = FieldProvider {
        entries: vec![],
        default_sample: Some(v(SCALE, 0, 0)),
        samples: vec![v(SCALE, 0, 0)],
    };
    assert!(ParticleEngine::new(4, field, RandomSource::from_seed(1)).is_ok());
}
