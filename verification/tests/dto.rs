use sph_sim::dto::{
    decode_snapshot, le_vector3, particles_to_bytes, take_particle, take_particles, to_le_bytes,
    write_to_bytes, DecodeError, Particle, ParticleDto, Vector3,
};

fn vector3(x: f64, y: f64, z: f64) -> Vector3 {
    Vector3 {
        x: x.to_bits(),
        y: y.to_bits(),
        z: z.to_bits(),
    }
}

fn dto(px: f64, py: f64, vx: f64, vy: f64, density: f64, pressure: f64) -> ParticleDto {
    ParticleDto {
        position: vector3(px, py, 0.0),
        velocity: vector3(vx, vy, 0.0),
        density: density.to_bits(),
        pressure: pressure.to_bits(),
    }
}

/// The particle that the solver's `Particle::new(x, y)` builds: at rest,
/// force-free, density one.
fn particle_at_rest(x: f64, y: f64) -> Particle {
    Particle {
        x: x.to_bits(),
        y: y.to_bits(),
        vx: 0.0f64.to_bits(),
        vy: 0.0f64.to_bits(),
        fx: 0.0f64.to_bits(),
        fy: 0.0f64.to_bits(),
        ofx: 0.0f64.to_bits(),
        ofy: 0.0f64.to_bits(),
        density: 1.0f64.to_bits(),
        pressure: 0.0f64.to_bits(),
    }
}

#[test]
fn serialize_and_deserialize_vector() {
    let initial = vector3(1.0, 2.0, 3.0);

    let data = to_le_bytes(&initial);
    let (result, _) = le_vector3(&data, 0).unwrap();

    assert_eq!(result, initial);
}

#[test]
fn map() {
    let initial = particle_at_rest(1.0, 0.0);

    let converted: ParticleDto = initial.into();
    let result: Particle = converted.into();

    assert_eq!(result, particle_at_rest(1.0, 0.0));
}

#[test]
fn write_to_io_writes_length_first() {
    let particles = vec![dto(1.0, 0.0, 1.0, 0.0, 0.0, 0.0)];
    let expected = (particles.len() as u64).to_le_bytes();

    let result = particles_to_bytes(&particles);

    let u64_size = std::mem::size_of::<u64>();
    assert_eq!(result[..u64_size], expected);
}

#[test]
fn serialize_and_deserialize_particles() {
    let particles = vec![dto(1.0, 0.0, 1.0, 0.0, 0.0, 0.0)];

    let data = particles_to_bytes(&particles);

    let (result, _) = take_particles(&data).unwrap();

    assert_eq!(result, particles);
}

#[test]
fn snapshot_wire_layout_is_exact() {
    let particles = vec![dto(1.0, -2.0, 0.5, 0.0, 1.5, 3.0)];
    let data = particles_to_bytes(&particles);

    assert_eq!(data.len(), 8 + 64);
    // count word
    assert_eq!(&data[0..8], &1u64.to_le_bytes());
    // position: x, y and a zero pad word
    assert_eq!(&data[8..16], &1.0f64.to_le_bytes());
    assert_eq!(&data[16..24], &(-2.0f64).to_le_bytes());
    assert_eq!(&data[24..32], &[0u8; 8]);
    // velocity: x, y and a zero pad word
    assert_eq!(&data[32..40], &0.5f64.to_le_bytes());
    assert_eq!(&data[40..48], &0.0f64.to_le_bytes());
    assert_eq!(&data[48..56], &[0u8; 8]);
    // density, pressure
    assert_eq!(&data[56..64], &1.5f64.to_le_bytes());
    assert_eq!(&data[64..72], &3.0f64.to_le_bytes());
}

#[test]
fn snapshot_round_trip_is_bit_identical() {
    // values with tricky bit patterns: negative zero, NaN, infinities,
    // subnormals - the codec must reproduce each one bit for bit
    let particles = vec![
        dto(-0.0, f64::NAN, f64::INFINITY, f64::NEG_INFINITY, 5e-324, 1.0e308),
        dto(3.25, -7.5, 0.125, 2.0, 1017.3, -44.0),
        dto(0.0, 0.0, 0.0, 0.0, 0.0, 0.0),
    ];

    let data = particles_to_bytes(&particles);
    let result = decode_snapshot(&data).unwrap();

    assert_eq!(result.len(), particles.len());
    for (r, p) in result.iter().zip(particles.iter()) {
        assert_eq!(r.position.x, p.position.x);
        assert_eq!(r.position.y, p.position.y);
        assert_eq!(r.position.z, p.position.z);
        assert_eq!(r.velocity.x, p.velocity.x);
        assert_eq!(r.velocity.y, p.velocity.y);
        assert_eq!(r.velocity.z, p.velocity.z);
        assert_eq!(r.density, p.density);
        assert_eq!(r.pressure, p.pressure);
    }
}

#[test]
fn write_to_bytes_matches_dto_encoding() {
    let particles = vec![particle_at_rest(1.0, 2.0), particle_at_rest(-3.0, 4.5)];
    let dtos = vec![dto(1.0, 2.0, 0.0, 0.0, 1.0, 0.0), dto(-3.0, 4.5, 0.0, 0.0, 1.0, 0.0)];

    assert_eq!(write_to_bytes(&particles), particles_to_bytes(&dtos));
}

#[test]
fn decode_empty_input_is_truncated_at_zero() {
    let r = decode_snapshot(&[]);
    assert_eq!(r, Err(DecodeError::Truncated { offset: 0 }));
}

#[test]
fn decode_short_header_is_truncated_at_zero() {
    let r = decode_snapshot(&[1, 0, 0, 0, 0, 0, 0]);
    assert_eq!(r, Err(DecodeError::Truncated { offset: 0 }));
}

#[test]
fn decode_missing_record_is_truncated_at_record_start() {
    // count says one particle, but no record follows
    let data = 1u64.to_le_bytes().to_vec();
    let r = decode_snapshot(&data);
    assert_eq!(r, Err(DecodeError::Truncated { offset: 8 }));
}

#[test]
fn decode_partial_record_is_truncated_at_its_start() {
    // count says two particles; the second record stops halfway
    let particles = vec![dto(1.0, 2.0, 3.0, 4.0, 5.0, 6.0)];
    let mut data = particles_to_bytes(&particles);
    data[0..8].copy_from_slice(&2u64.to_le_bytes());
    data.extend_from_slice(&[0u8; 32]);
    let r = decode_snapshot(&data);
    assert_eq!(r, Err(DecodeError::Truncated { offset: 8 + 64 }));
}

#[test]
fn decode_trailing_bytes_fail_at_first_unread_byte() {
    let particles = vec![dto(1.0, 2.0, 3.0, 4.0, 5.0, 6.0)];
    let mut data = particles_to_bytes(&particles);
    data.push(0xAB);
    let r = decode_snapshot(&data);
    assert_eq!(r, Err(DecodeError::TrailingBytes { offset: 8 + 64 }));
}

#[test]
fn take_particle_reads_one_record() {
    let particles = vec![dto(9.0, 8.0, 7.0, 6.0, 5.0, 4.0)];
    let data = particles_to_bytes(&particles);
    let (p, end) = take_particle(&data, 8).unwrap();
    assert_eq!(p, particles[0]);
    assert_eq!(end, data.len());
}

#[test]
fn take_particles_leaves_trailing_bytes_unread() {
    let particles = vec![dto(1.0, 1.0, 0.0, 0.0, 2.0, 0.5)];
    let mut data = particles_to_bytes(&particles);
    data.extend_from_slice(&[1, 2, 3]);
    let (result, end) = take_particles(&data).unwrap();
    assert_eq!(result, particles);
    assert_eq!(end, data.len() - 3);
}
