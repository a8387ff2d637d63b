//! Length-prefixed binary snapshot format for particle arrays.
//!
//! All scalar fields of a particle are double-width floating-point values in
//! the solver; here each one is carried as the 64-bit pattern of that value,
//! so encoding and decoding are exact and the round trip is bit-identical.
//! The wire format is little-endian: a `u64` particle count, then one
//! fixed-size record per particle - position (three words, the third a zero
//! pad kept for forward compatibility), velocity (three words, same
//! convention), density and pressure.

use vstd::bytes::*;
use vstd::prelude::*;
use vstd::slice::slice_subrange;

verus! {

/// A three-component vector; each component is the bit pattern of a
/// double-width float.  The third component is a zero pad on the wire.
#[derive(Clone, Copy, Debug, PartialEq, Eq, Structural)]
pub struct Vector3 {
    pub x: u64,
    pub y: u64,
    pub z: u64,
}

/// One particle record as it stands on the wire.
#[derive(Clone, Copy, Debug, PartialEq, Eq, Structural)]
pub struct ParticleDto {
    pub position: Vector3,
    pub velocity: Vector3,
    pub density: u64,
    pub pressure: u64,
}

/// A particle of the solver's state, each scalar carried as the bit pattern
/// of its double-width float value: position, velocity, the force being
/// accumulated this step, the previous step's force, density and pressure.
#[derive(Clone, Copy, Debug, PartialEq, Eq, Structural)]
pub struct Particle {
    pub x: u64,
    pub y: u64,
    pub vx: u64,
    pub vy: u64,
    pub fx: u64,
    pub fy: u64,
    pub ofx: u64,
    pub ofy: u64,
    pub density: u64,
    pub pressure: u64,
}

/// The record that a particle is written out as: forces are not persisted,
/// and both vectors get a zero third component.
pub open spec fn dto_of_particle(p: Particle) -> ParticleDto {
    ParticleDto {
        position: Vector3 { x: p.x, y: p.y, z: 0 },
        velocity: Vector3 { x: p.vx, y: p.vy, z: 0 },
        density: p.density,
        pressure: p.pressure,
    }
}

/// The particle that a record is read back as: the pad components are
/// dropped and both force fields start out zero.
pub open spec fn particle_of_dto(d: ParticleDto) -> Particle {
    Particle {
        x: d.position.x,
        y: d.position.y,
        vx: d.velocity.x,
        vy: d.velocity.y,
        fx: 0,
        fy: 0,
        ofx: 0,
        ofy: 0,
        density: d.density,
        pressure: d.pressure,
    }
}

impl From<Particle> for ParticleDto {
    fn from(particle: Particle) -> (r: ParticleDto) {
        ParticleDto {
            position: Vector3 { x: particle.x, y: particle.y, z: 0 },
            velocity: Vector3 { x: particle.vx, y: particle.vy, z: 0 },
            density: particle.density,
            pressure: particle.pressure,
        }
    }
}

impl vstd::std_specs::convert::FromSpecImpl<Particle> for ParticleDto {
    open spec fn obeys_from_spec() -> bool {
        true
    }

    open spec fn from_spec(v: Particle) -> ParticleDto {
        dto_of_particle(v)
    }
}

impl From<ParticleDto> for Particle {
    fn from(particle: ParticleDto) -> (r: Particle) {
        Particle {
            x: particle.position.x,
            y: particle.position.y,
            vx: particle.velocity.x,
            vy: particle.velocity.y,
            fx: 0,
            fy: 0,
            ofx: 0,
            ofy: 0,
            density: particle.density,
            pressure: particle.pressure,
        }
    }
}

impl vstd::std_specs::convert::FromSpecImpl<ParticleDto> for Particle {
    open spec fn obeys_from_spec() -> bool {
        true
    }

    open spec fn from_spec(v: ParticleDto) -> Particle {
        particle_of_dto(v)
    }
}

/// Law: mapping a particle to its wire record and back loses nothing but the
/// forces - a particle whose force fields are zero comes back unchanged.
pub proof fn lemma_particle_record_round_trip(p: Particle)
    requires
        p.fx == 0,
        p.fy == 0,
        p.ofx == 0,
        p.ofy == 0,
    ensures
        particle_of_dto(dto_of_particle(p)) == p,
{
}

/// The 24 bytes of a vector on the wire: each component in little-endian
/// order, lowest component first.
pub open spec fn vector3_bytes(v: Vector3) -> Seq<u8> {
    spec_u64_to_le_bytes(v.x) + spec_u64_to_le_bytes(v.y) + spec_u64_to_le_bytes(v.z)
}

/// The 64 bytes of one particle record.
pub open spec fn particle_bytes(p: ParticleDto) -> Seq<u8> {
    vector3_bytes(p.position) + vector3_bytes(p.velocity) + spec_u64_to_le_bytes(p.density)
        + spec_u64_to_le_bytes(p.pressure)
}

/// The records of a particle array, one after the other.
pub open spec fn particles_bytes(ps: Seq<ParticleDto>) -> Seq<u8>
    decreases ps.len(),
{
    if ps.len() == 0 {
        Seq::empty()
    } else {
        particle_bytes(ps[0]) + particles_bytes(ps.drop_first())
    }
}

/// The whole snapshot: the particle count as a little-endian word, then the
/// records.
pub open spec fn snapshot_bytes(ps: Seq<ParticleDto>) -> Seq<u8>
    recommends
        ps.len() <= u64::MAX,
{
    spec_u64_to_le_bytes(ps.len() as u64) + particles_bytes(ps)
}

pub proof fn lemma_particle_bytes_len(p: ParticleDto)
    ensures
        particle_bytes(p).len() == 64,
        vector3_bytes(p.position).len() == 24,
        vector3_bytes(p.velocity).len() == 24,
{
    lemma_auto_spec_u64_to_from_le_bytes();
}

pub proof fn lemma_particles_bytes_len(ps: Seq<ParticleDto>)
    ensures
        particles_bytes(ps).len() == 64 * ps.len(),
    decreases ps.len(),
{
    if ps.len() == 0 {
    } else {
        lemma_particle_bytes_len(ps[0]);
        lemma_particles_bytes_len(ps.drop_first());
    }
}

pub proof fn lemma_snapshot_bytes_len(ps: Seq<ParticleDto>)
    ensures
        snapshot_bytes(ps).len() == 8 + 64 * ps.len(),
{
    lemma_auto_spec_u64_to_from_le_bytes();
    lemma_particles_bytes_len(ps);
}

/// Appending one particle appends its 64 bytes.
proof fn lemma_particles_bytes_push(ps: Seq<ParticleDto>, p: ParticleDto)
    ensures
        particles_bytes(ps.push(p)) == particles_bytes(ps) + particle_bytes(p),
    decreases ps.len(),
{
    if ps.len() == 0 {
        assert(ps.push(p).drop_first() =~= Seq::<ParticleDto>::empty());
        assert(ps.push(p)[0] == p);
        assert(particles_bytes(ps.push(p)) == particle_bytes(p) + particles_bytes(
            Seq::<ParticleDto>::empty(),
        ));
        assert(particle_bytes(p) + Seq::<u8>::empty() =~= Seq::<u8>::empty() + particle_bytes(p));
    } else {
        assert(ps.push(p).drop_first() =~= ps.drop_first().push(p));
        lemma_particles_bytes_push(ps.drop_first(), p);
        assert(ps.push(p)[0] == ps[0]);
        assert(particles_bytes(ps.push(p)) == particle_bytes(ps[0]) + (particles_bytes(
            ps.drop_first(),
        ) + particle_bytes(p)));
        assert(particle_bytes(ps[0]) + (particles_bytes(ps.drop_first()) + particle_bytes(p))
            =~= (particle_bytes(ps[0]) + particles_bytes(ps.drop_first())) + particle_bytes(p));
    }
}

/// Appends the little-endian bytes of `x` to `dst`.
fn push_u64_le(dst: &mut Vec<u8>, x: u64)
    ensures
        final(dst)@ == old(dst)@ + spec_u64_to_le_bytes(x),
{
    let mut bytes = u64_to_le_bytes(x);
    dst.append(&mut bytes);
}

/// Writes the three components of a vector, little-endian, lowest first.
pub fn to_le_bytes(input: &Vector3) -> (r: Vec<u8>)
    ensures
        r@ == vector3_bytes(*input),
{
    let mut r: Vec<u8> = Vec::new();
    push_u64_le(&mut r, input.x);
    push_u64_le(&mut r, input.y);
    push_u64_le(&mut r, input.z);
    proof {
        assert(r@ =~= vector3_bytes(*input));
    }
    r
}

/// Appends the 64-byte record of `p` to `dst`.
fn push_particle(dst: &mut Vec<u8>, p: &ParticleDto)
    ensures
        final(dst)@ == old(dst)@ + particle_bytes(*p),
{
    push_u64_le(dst, p.position.x);
    push_u64_le(dst, p.position.y);
    push_u64_le(dst, p.position.z);
    push_u64_le(dst, p.velocity.x);
    push_u64_le(dst, p.velocity.y);
    push_u64_le(dst, p.velocity.z);
    push_u64_le(dst, p.density);
    push_u64_le(dst, p.pressure);
    proof {
        assert(dst@ =~= old(dst)@ + particle_bytes(*p));
    }
}

/// Encodes a particle array as a snapshot: the count, then one record per
/// particle in order.
pub fn particles_to_bytes(particles: &Vec<ParticleDto>) -> (r: Vec<u8>)
    ensures
        r@ == snapshot_bytes(particles@),
{
    let n = particles.len() as u64;
    let mut r: Vec<u8> = Vec::new();
    push_u64_le(&mut r, n);
    let mut i: usize = 0;
    while i < particles.len()
        invariant
            i <= particles.len(),
            n == particles@.len(),
            r@ == spec_u64_to_le_bytes(n) + particles_bytes(particles@.take(i as int)),
        decreases particles.len() - i,
    {
        push_particle(&mut r, &particles[i]);
        proof {
            assert(particles@.take(i + 1) =~= particles@.take(i as int).push(particles@[i as int]));
            lemma_particles_bytes_push(particles@.take(i as int), particles@[i as int]);
            assert(r@ =~= spec_u64_to_le_bytes(n) + particles_bytes(particles@.take(i + 1)));
        }
        i = i + 1;
    }
    proof {
        assert(particles@.take(particles@.len() as int) =~= particles@);
    }
    r
}

/// Two vectors with the same bytes are the same vector.
proof fn lemma_vector3_bytes_injective(v1: Vector3, v2: Vector3)
    requires
        vector3_bytes(v1) == vector3_bytes(v2),
    ensures
        v1 == v2,
{
    lemma_auto_spec_u64_to_from_le_bytes();
    let b = vector3_bytes(v1);
    assert(spec_u64_to_le_bytes(v1.x) =~= b.subrange(0, 8));
    assert(spec_u64_to_le_bytes(v1.y) =~= b.subrange(8, 16));
    assert(spec_u64_to_le_bytes(v1.z) =~= b.subrange(16, 24));
    assert(spec_u64_to_le_bytes(v2.x) =~= b.subrange(0, 8));
    assert(spec_u64_to_le_bytes(v2.y) =~= b.subrange(8, 16));
    assert(spec_u64_to_le_bytes(v2.z) =~= b.subrange(16, 24));
    assert(v1.x == spec_u64_from_le_bytes(spec_u64_to_le_bytes(v1.x)));
    assert(v1.y == spec_u64_from_le_bytes(spec_u64_to_le_bytes(v1.y)));
    assert(v1.z == spec_u64_from_le_bytes(spec_u64_to_le_bytes(v1.z)));
}

/// Two records with the same bytes are the same record.
proof fn lemma_particle_bytes_injective(p1: ParticleDto, p2: ParticleDto)
    requires
        particle_bytes(p1) == particle_bytes(p2),
    ensures
        p1 == p2,
{
    lemma_auto_spec_u64_to_from_le_bytes();
    let b = particle_bytes(p1);
    assert(vector3_bytes(p1.position) =~= b.subrange(0, 24));
    assert(vector3_bytes(p1.velocity) =~= b.subrange(24, 48));
    assert(spec_u64_to_le_bytes(p1.density) =~= b.subrange(48, 56));
    assert(spec_u64_to_le_bytes(p1.pressure) =~= b.subrange(56, 64));
    assert(vector3_bytes(p2.position) =~= b.subrange(0, 24));
    assert(vector3_bytes(p2.velocity) =~= b.subrange(24, 48));
    assert(spec_u64_to_le_bytes(p2.density) =~= b.subrange(48, 56));
    assert(spec_u64_to_le_bytes(p2.pressure) =~= b.subrange(56, 64));
    lemma_vector3_bytes_injective(p1.position, p2.position);
    lemma_vector3_bytes_injective(p1.velocity, p2.velocity);
    assert(p1.density == spec_u64_from_le_bytes(spec_u64_to_le_bytes(p1.density)));
    assert(p1.pressure == spec_u64_from_le_bytes(spec_u64_to_le_bytes(p1.pressure)));
}

/// Two particle arrays of the same length with the same record bytes are
/// equal.
proof fn lemma_particles_bytes_injective(ps1: Seq<ParticleDto>, ps2: Seq<ParticleDto>)
    requires
        ps1.len() == ps2.len(),
        particles_bytes(ps1) == particles_bytes(ps2),
    ensures
        ps1 == ps2,
    decreases ps1.len(),
{
    if ps1.len() == 0 {
        assert(ps1 =~= ps2);
    } else {
        let b = particles_bytes(ps1);
        lemma_particle_bytes_len(ps1[0]);
        lemma_particle_bytes_len(ps2[0]);
        assert(particle_bytes(ps1[0]) =~= b.subrange(0, 64));
        assert(particle_bytes(ps2[0]) =~= b.subrange(0, 64));
        lemma_particle_bytes_injective(ps1[0], ps2[0]);
        lemma_particles_bytes_len(ps1.drop_first());
        lemma_particles_bytes_len(ps2.drop_first());
        assert(particles_bytes(ps1.drop_first()) =~= b.subrange(64, b.len() as int));
        assert(particles_bytes(ps2.drop_first()) =~= b.subrange(64, b.len() as int));
        lemma_particles_bytes_injective(ps1.drop_first(), ps2.drop_first());
        assert forall|i: int| 0 <= i < ps1.len() implies ps1[i] == ps2[i] by {
            if i > 0 {
                assert(ps1[i] == ps1.drop_first()[i - 1]);
                assert(ps2[i] == ps2.drop_first()[i - 1]);
            }
        }
        assert(ps1 =~= ps2);
    }
}

/// Law: the snapshot encoding is lossless.  Two particle arrays with the
/// same byte image are the same array, so decoding what encoding produced
/// gives back every field bit for bit (`decode_snapshot` returns an array
/// whose image is the input, and only one array has that image).
pub proof fn lemma_snapshot_round_trip(ps1: Seq<ParticleDto>, ps2: Seq<ParticleDto>)
    requires
        snapshot_bytes(ps1) == snapshot_bytes(ps2),
    ensures
        ps1 == ps2,
{
    lemma_auto_spec_u64_to_from_le_bytes();
    lemma_snapshot_bytes_len(ps1);
    lemma_snapshot_bytes_len(ps2);
    let b = snapshot_bytes(ps1);
    assert(ps1.len() == ps2.len());
    lemma_particles_bytes_len(ps1);
    lemma_particles_bytes_len(ps2);
    assert(particles_bytes(ps1) =~= b.subrange(8, b.len() as int));
    assert(particles_bytes(ps2) =~= b.subrange(8, b.len() as int));
    lemma_particles_bytes_injective(ps1, ps2);
}

/// Why decoding a snapshot failed, and at which byte offset.
#[derive(Clone, Copy, Debug, PartialEq, Eq, Structural)]
pub enum DecodeError {
    /// The input ends before the item starting at `offset` is complete.
    Truncated { offset: usize },
    /// Every record announced by the count has been read, but bytes are
    /// left over from `offset` on.
    TrailingBytes { offset: usize },
}

/// The particle count announced by a snapshot's first word.
pub open spec fn spec_count(bytes: Seq<u8>) -> u64
    recommends
        bytes.len() >= 8,
{
    spec_u64_from_le_bytes(bytes.subrange(0, 8))
}

/// Whether the input holds the count word and every record it announces.
pub open spec fn snapshot_complete(bytes: Seq<u8>) -> bool {
    bytes.len() >= 8 && bytes.len() >= 8 + 64 * spec_count(bytes)
}

/// Where a truncated input gives out: the start of the first item (count
/// word or record) that is not there in full.
pub open spec fn truncation_offset(bytes: Seq<u8>) -> int {
    if bytes.len() < 8 {
        0
    } else {
        8 + 64 * ((bytes.len() - 8) / 64)
    }
}

/// The error that decoding `bytes` reports when no particle array encodes
/// to exactly these bytes.
pub open spec fn spec_decode_error(bytes: Seq<u8>) -> DecodeError {
    if !snapshot_complete(bytes) {
        DecodeError::Truncated { offset: truncation_offset(bytes) as usize }
    } else {
        DecodeError::TrailingBytes { offset: (8 + 64 * spec_count(bytes)) as usize }
    }
}

/// Reads the little-endian word at `offset`.
fn read_u64(input: &[u8], offset: usize) -> (x: u64)
    requires
        offset + 8 <= input@.len(),
    ensures
        x == spec_u64_from_le_bytes(input@.subrange(offset as int, offset + 8)),
{
    let len = input.len();
    assert(offset + 8 <= len);
    let s = slice_subrange(input, offset, offset + 8);
    u64_from_le_bytes(s)
}

/// Reads the three little-endian components of a vector at `offset`.
pub fn le_vector3(input: &[u8], offset: usize) -> (r: Result<(Vector3, usize), DecodeError>)
    requires
        offset <= input@.len(),
    ensures
        match r {
            Ok((v, end)) => {
                &&& offset + 24 <= input@.len()
                &&& end == offset + 24
                &&& vector3_bytes(v) == input@.subrange(offset as int, end as int)
            },
            Err(e) => {
                &&& input@.len() < offset + 24
                &&& e == (DecodeError::Truncated { offset })
            },
        },
{
    if input.len() - offset < 24 {
        return Err(DecodeError::Truncated { offset });
    }
    let x = read_u64(input, offset);
    let y = read_u64(input, offset + 8);
    let z = read_u64(input, offset + 16);
    let v = Vector3 { x, y, z };
    proof {
        lemma_auto_spec_u64_to_from_le_bytes();
        assert(vector3_bytes(v) =~= input@.subrange(offset as int, offset + 24));
    }
    Ok((v, offset + 24))
}

/// Reads one 64-byte particle record at `offset`.
pub fn take_particle(input: &[u8], offset: usize) -> (r: Result<
    (ParticleDto, usize),
    DecodeError,
>)
    requires
        offset <= input@.len(),
    ensures
        match r {
            Ok((p, end)) => {
                &&& offset + 64 <= input@.len()
                &&& end == offset + 64
                &&& particle_bytes(p) == input@.subrange(offset as int, end as int)
            },
            Err(e) => {
                &&& input@.len() < offset + 64
                &&& e == (DecodeError::Truncated { offset })
            },
        },
{
    if input.len() - offset < 64 {
        return Err(DecodeError::Truncated { offset });
    }
    let position = le_vector3(input, offset).unwrap().0;
    let velocity = le_vector3(input, offset + 24).unwrap().0;
    let density = read_u64(input, offset + 48);
    let pressure = read_u64(input, offset + 56);
    let p = ParticleDto { position, velocity, density, pressure };
    proof {
        lemma_auto_spec_u64_to_from_le_bytes();
        assert(particle_bytes(p) =~= input@.subrange(offset as int, offset + 64));
    }
    Ok((p, offset + 64))
}

/// Reads the count word and that many records from the front of `input`;
/// returns them with the offset of the first unread byte.  Fails, naming the
/// offset where the input gives out, exactly when the input is shorter than
/// the records it announces.
pub fn take_particles(input: &[u8]) -> (r: Result<(Vec<ParticleDto>, usize), DecodeError>)
    ensures
        match r {
            Ok((ps, end)) => {
                &&& snapshot_complete(input@)
                &&& ps@.len() == spec_count(input@)
                &&& end == 8 + 64 * ps@.len() <= input@.len()
                &&& input@.subrange(0, end as int) == snapshot_bytes(ps@)
            },
            Err(e) => {
                &&& !snapshot_complete(input@)
                &&& e == spec_decode_error(input@)
            },
        },
{
    if input.len() < 8 {
        return Err(DecodeError::Truncated { offset: 0 });
    }
    let n = read_u64(input, 0);
    let mut ps: Vec<ParticleDto> = Vec::new();
    let mut offset: usize = 8;
    let mut k: u64 = 0;
    while k < n
        invariant
            k <= n,
            ps@.len() == k,
            offset == 8 + 64 * k,
            offset <= input@.len(),
            8 <= input@.len(),
            n == spec_count(input@),
            input@.subrange(8, offset as int) == particles_bytes(ps@),
        decreases n - k,
    {
        match take_particle(input, offset) {
            Ok((p, end)) => {
                proof {
                    lemma_particles_bytes_push(ps@, p);
                    assert(input@.subrange(8, end as int) =~= input@.subrange(8, offset as int)
                        + input@.subrange(offset as int, end as int));
                }
                ps.push(p);
                offset = end;
                k = k + 1;
            },
            Err(e) => {
                proof {
                    vstd::arithmetic::div_mod::lemma_fundamental_div_mod_converse(
                        input@.len() - 8,
                        64,
                        k as int,
                        input@.len() - 8 - 64 * k,
                    );
                }
                return Err(e);
            },
        }
    }
    proof {
        lemma_auto_spec_u64_to_from_le_bytes();
        assert(input@.subrange(0, offset as int) =~= input@.subrange(0, 8) + input@.subrange(
            8,
            offset as int,
        ));
        assert(input@.subrange(0, 8) == spec_u64_to_le_bytes(n));
    }
    Ok((ps, offset))
}

/// Decodes a whole snapshot.  Succeeds exactly on the byte images that
/// encoding produces: the count word, the announced records, and nothing
/// after them.  No partial result is returned - a truncated or oversized
/// input yields only an error naming the offending offset.
pub fn decode_snapshot(input: &[u8]) -> (r: Result<Vec<ParticleDto>, DecodeError>)
    ensures
        match r {
            Ok(ps) => {
                &&& input@ == snapshot_bytes(ps@)
                &&& ps@.len() == spec_count(input@)
            },
            Err(e) => {
                &&& e == spec_decode_error(input@)
                &&& forall|ps: Seq<ParticleDto>| input@ != #[trigger] snapshot_bytes(ps)
            },
        },
{
    let (ps, end) = match take_particles(input) {
        Ok(ok) => ok,
        Err(e) => {
            proof {
                assert forall|qs: Seq<ParticleDto>| input@ != #[trigger] snapshot_bytes(qs) by {
                    if input@ == snapshot_bytes(qs) {
                        lemma_snapshot_bytes_len(qs);
                        lemma_auto_spec_u64_to_from_le_bytes();
                        assert(input@.subrange(0, 8) =~= spec_u64_to_le_bytes(qs.len() as u64));
                        assert(spec_count(input@) == qs.len() as u64);
                        assert(qs.len() <= u64::MAX);
                        assert(snapshot_complete(input@));
                    }
                }
            }
            return Err(e);
        },
    };
    if end != input.len() {
        proof {
            assert forall|qs: Seq<ParticleDto>| input@ != #[trigger] snapshot_bytes(qs) by {
                if input@ == snapshot_bytes(qs) {
                    lemma_snapshot_bytes_len(qs);
                    lemma_auto_spec_u64_to_from_le_bytes();
                    assert(input@.subrange(0, 8) =~= spec_u64_to_le_bytes(qs.len() as u64));
                    assert(spec_count(input@) == qs.len() as u64);
                }
            }
        }
        return Err(DecodeError::TrailingBytes { offset: end });
    }
    proof {
        assert(input@ =~= input@.subrange(0, end as int));
    }
    Ok(ps)
}

/// The bytes that a snapshot write produces for the solver's particles:
/// every particle mapped to its wire record, then encoded.  The caller owns
/// handing the bytes to its output stream.
pub fn write_to_bytes(particles: &Vec<Particle>) -> (r: Vec<u8>)
    ensures
        r@ == snapshot_bytes(particles@.map_values(|p: Particle| dto_of_particle(p))),
{
    let mut dtos: Vec<ParticleDto> = Vec::new();
    let mut i: usize = 0;
    while i < particles.len()
        invariant
            i <= particles.len(),
            dtos@ == particles@.take(i as int).map_values(|p: Particle| dto_of_particle(p)),
        decreases particles.len() - i,
    {
        dtos.push(ParticleDto::from(particles[i]));
        proof {
            assert(dtos@ =~= particles@.take(i + 1).map_values(
                |p: Particle| dto_of_particle(p),
            ));
        }
        i = i + 1;
    }
    proof {
        assert(particles@.take(particles@.len() as int) =~= particles@);
    }
    particles_to_bytes(&dtos)
}

} // verus!

