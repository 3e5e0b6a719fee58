//! The particle engine: pool, per-tick update, and render-buffer compaction.
//!
//! The engine owns a fixed-size pool of particles.  Each tick, in slot
//! order, it respawns particles whose age has run out, integrates every
//! particle one step along the field, retires particles whose sample is
//! invalid or whose magnitude falls outside the configured band, and writes
//! the survivors — in slot order — into a dense render buffer, tracking the
//! least and greatest camera distance among them.
//!
//! The contract of [`ParticleEngine::update`] pins the whole tick down, up
//! to the positions drawn for respawned slots: there is a sequence of
//! post-respawn positions, each within the seeding radius of the camera
//! target, from which every new pool slot, the render buffer, the alive
//! count and both camera distances follow exactly.

use crate::field::{max_magnitude, max_norm, ConfigurationError, FieldProvider};
use crate::fx::{
    clamp_fx, div_trunc, fx_add, fx_mul, fx_sqrt, isqrt, lemma_clamp_add_close, lemma_clamp_mag,
    lemma_isqrt_bounds, lemma_mul_bound, lemma_tdiv_mag, scale_frac, tdiv, FX_LIMIT, SCALE,
};
use crate::rng::RandomSource;
use crate::vec3::{
    dist_spec, dist_sq, distance, lemma_abs_mul_pos, lemma_sq_from_abs, lemma_sq_mul,
    lemma_sq_nonneg, magnitude, norm3, norm_spec, sq, Vec3,
};
use vstd::arithmetic::div_mod::{
    lemma_div_is_ordered, lemma_div_pos_is_pos, lemma_fundamental_div_mod,
    lemma_fundamental_div_mod_converse, lemma_mod_bound,
};
use vstd::arithmetic::mul::{lemma_mul_inequality, lemma_mul_is_commutative};
use vstd::math::abs;
use vstd::prelude::*;

verus! {

/// Age, in ticks, past which a particle respawns at its next evaluation.
pub const RESPAWN_THRESHOLD: u32 = 100;

/// Age written to retire a particle at once: comfortably above the respawn
/// threshold, so the particle respawns at its very next evaluation.
pub const KILL_SENTINEL: u32 = 500;

/// Base integration step per tick, `0.02` in fixed point: a particle moves
/// by `sample * SPEED_STEP * speed_multiplier` scalars each tick.
pub const SPEED_STEP: i64 = 20_000;

/// Half a unit, `0.5` in fixed point: the seeding cube's half-extent, and
/// the factor on the seeding-radius scale.
pub const SPAWN_HALF: i64 = 500_000;

/// Floor added to the seeding radius, `0.1` in fixed point.
pub const SPAWN_RADIUS_BASE: i64 = 100_000;

/// Factor from a survivor's field magnitude to its render intensity.
pub const INTENSITY_FACTOR: i64 = 4;

/// The tunable simulation parameters, a snapshot supplied fresh each tick.
#[derive(Clone, Copy, Debug, PartialEq, Eq, Structural)]
pub struct Parameters {
    /// Scales the integration step; nonnegative.
    pub speed_multiplier: i64,
    /// Fraction of the magnitude scale below which particles are retired,
    /// in `[0, SCALE]`.
    pub highpass: i64,
    /// Fraction of the magnitude scale above which particles are retired,
    /// in `[0, SCALE]`.
    pub lowpass: i64,
    /// Scales the respawn seeding radius; positive.
    pub seed_radius_scale: i64,
}

impl Parameters {
    /// The ranges each parameter must lie in.
    pub open spec fn wf(self) -> bool {
        &&& 0 <= self.speed_multiplier <= FX_LIMIT
        &&& 0 <= self.highpass <= SCALE
        &&& 0 <= self.lowpass <= SCALE
        &&& 0 < self.seed_radius_scale <= FX_LIMIT
    }
}

/// The camera's pose, supplied fresh each tick by an outside collaborator.
#[derive(Clone, Copy, Debug, PartialEq, Eq, Structural)]
pub struct CameraPose {
    /// Where the camera stands; distances are measured from here.
    pub position: Vec3,
    /// What the camera looks at; respawns seed around here.
    pub target: Vec3,
}

impl CameraPose {
    /// Both points are stored vectors.
    pub open spec fn wf(self) -> bool {
        self.position.wf() && self.target.wf()
    }
}

/// One pool slot: a particle's position and age in ticks.
#[derive(Clone, Copy, Debug, PartialEq, Eq, Structural)]
pub struct Particle {
    /// Where the particle is.
    pub position: Vec3,
    /// Ticks lived since the last respawn, or the kill sentinel.
    pub age: u32,
}

/// A particle's position is stored and its age is either a running age or
/// the kill sentinel.
pub open spec fn particle_wf(p: Particle) -> bool {
    p.position.wf() && (p.age <= RESPAWN_THRESHOLD + 1 || p.age == KILL_SENTINEL)
}

/// One render-buffer entry: a surviving particle's position and intensity.
#[derive(Clone, Copy, Debug, PartialEq, Eq, Structural)]
pub struct RenderRecord {
    /// The survivor's position after this tick's integration step.
    pub position: Vec3,
    /// Its field magnitude scaled by [`INTENSITY_FACTOR`].
    pub intensity: i64,
}

/// The magnitude below which particles are retired:
/// `field_max_magnitude * highpass`, exactly, in fixed point.
pub open spec fn threshold_low(fmm: int, p: Parameters) -> int {
    (fmm * p.highpass as int) / (SCALE as int)
}

/// The magnitude above which particles are retired:
/// `field_max_magnitude * lowpass`, exactly, in fixed point.
pub open spec fn threshold_high(fmm: int, p: Parameters) -> int {
    (fmm * p.lowpass as int) / (SCALE as int)
}

/// This tick's integration coefficient: `0.02 * speed_multiplier`.
pub open spec fn speed_coeff(p: Parameters) -> int {
    (p.speed_multiplier as int * SPEED_STEP as int) / (SCALE as int)
}

/// This tick's seeding radius: `seed_radius_scale * 0.5 + 0.1`.
pub open spec fn spawn_radius(p: Parameters) -> int {
    (p.seed_radius_scale as int * SPAWN_HALF as int) / (SCALE as int) + SPAWN_RADIUS_BASE as int
}

/// One coordinate after integration: the coordinate moves by the sample
/// scaled with the integration coefficient, saturating at the world bound.
pub open spec fn integrate_coord(c: int, d: int, k: int) -> int {
    clamp_fx(c + clamp_fx(tdiv(d * k, SCALE as int)))
}

/// A position after one integration step along sample `d`.
pub open spec fn integrate(pos: Vec3, d: Vec3, k: int) -> Vec3 {
    Vec3 {
        x: integrate_coord(pos.x as int, d.x as int, k) as i64,
        y: integrate_coord(pos.y as int, d.y as int, k) as i64,
        z: integrate_coord(pos.z as int, d.z as int, k) as i64,
    }
}

/// Whether a particle standing at `pos` survives this tick: its sample must
/// be valid and its magnitude must lie inside the band — both boundaries
/// inclusive, since the retiring comparisons are strict.
pub open spec fn survives(f: FieldProvider, fmm: int, p: Parameters, pos: Vec3) -> bool {
    match f.spec_sample(pos) {
        None => false,
        Some(d) => threshold_low(fmm, p) <= norm_spec(d) <= threshold_high(fmm, p),
    }
}

/// A particle's position after this tick, given where it stood after the
/// respawn check: integrated along its sample, or left in place when the
/// sample is invalid.
pub open spec fn stepped_position(f: FieldProvider, p: Parameters, pos: Vec3) -> Vec3 {
    match f.spec_sample(pos) {
        None => pos,
        Some(d) => integrate(pos, d, speed_coeff(p)),
    }
}

/// A particle's age entering the tick's survival step: reset when the
/// respawn threshold was exceeded.
pub open spec fn base_age(age: u32) -> u32 {
    if age > RESPAWN_THRESHOLD {
        0u32
    } else {
        age
    }
}

/// A particle's age after this tick: one older when it survived, the kill
/// sentinel when it was retired.
pub open spec fn stepped_age(f: FieldProvider, fmm: int, p: Parameters, pos: Vec3, age: u32) -> u32 {
    if survives(f, fmm, p, pos) {
        (base_age(age) + 1) as u32
    } else {
        KILL_SENTINEL
    }
}

/// The whole slot after this tick, given the slot before the tick and its
/// post-respawn position `mid`.
pub open spec fn stepped(
    f: FieldProvider,
    fmm: int,
    p: Parameters,
    before: Particle,
    mid: Vec3,
) -> Particle {
    Particle {
        position: stepped_position(f, p, mid),
        age: stepped_age(f, fmm, p, mid, before.age),
    }
}

/// The render record a surviving slot contributes: its integrated position
/// and its field magnitude scaled to an intensity.
pub open spec fn record_of(f: FieldProvider, p: Parameters, pos: Vec3) -> RenderRecord {
    match f.spec_sample(pos) {
        Some(d) => RenderRecord {
            position: stepped_position(f, p, pos),
            intensity: (INTENSITY_FACTOR as int * norm_spec(d)) as i64,
        },
        None => RenderRecord { position: pos, intensity: 0 },
    }
}

/// The dense render buffer a tick produces from the post-respawn positions
/// `mids`: the records of the surviving slots, in slot order.
pub open spec fn render_of(f: FieldProvider, fmm: int, p: Parameters, mids: Seq<Vec3>) -> Seq<
    RenderRecord,
>
    decreases mids.len(),
{
    if mids.len() == 0 {
        Seq::empty()
    } else {
        let rest = render_of(f, fmm, p, mids.drop_last());
        if survives(f, fmm, p, mids.last()) {
            rest.push(record_of(f, p, mids.last()))
        } else {
            rest
        }
    }
}

/// The least camera distance among this tick's survivors, and `i64::MAX` —
/// standing for an unbounded distance — when there is none.
pub open spec fn min_camera(
    f: FieldProvider,
    fmm: int,
    p: Parameters,
    cam_pos: Vec3,
    mids: Seq<Vec3>,
) -> int
    decreases mids.len(),
{
    if mids.len() == 0 {
        i64::MAX as int
    } else {
        let rest = min_camera(f, fmm, p, cam_pos, mids.drop_last());
        if survives(f, fmm, p, mids.last()) {
            let d = dist_spec(cam_pos, stepped_position(f, p, mids.last()));
            if d < rest {
                d
            } else {
                rest
            }
        } else {
            rest
        }
    }
}

/// The greatest camera distance among this tick's survivors, and `0` when
/// there is none.
pub open spec fn max_camera(
    f: FieldProvider,
    fmm: int,
    p: Parameters,
    cam_pos: Vec3,
    mids: Seq<Vec3>,
) -> int
    decreases mids.len(),
{
    if mids.len() == 0 {
        0int
    } else {
        let rest = max_camera(f, fmm, p, cam_pos, mids.drop_last());
        if survives(f, fmm, p, mids.last()) {
            let d = dist_spec(cam_pos, stepped_position(f, p, mids.last()));
            if d > rest {
                d
            } else {
                rest
            }
        } else {
            rest
        }
    }
}

/// How a slot's pre-tick state constrains its post-respawn position `mid`:
/// an over-age slot is reseeded somewhere within the seeding radius of the
/// camera target, every other slot keeps its position.
pub open spec fn respawn_step(before: Particle, mid: Vec3, p: Parameters, cam: CameraPose) -> bool {
    if before.age > RESPAWN_THRESHOLD {
        mid.wf() && dist_sq(mid, cam.target) < spawn_radius(p) * spawn_radius(p)
    } else {
        mid == before.position
    }
}

/// The particle engine: a fixed-size pool, its field, its randomness, and
/// the per-tick outputs consumers read back.
pub struct ParticleEngine {
    /// The pool: one slot per particle, never resized.
    pub particles: Vec<Particle>,
    /// Scratch render buffer, one slot per particle; only the prefix
    /// `[0, alive_count)` is valid after a tick.
    pub render: Vec<RenderRecord>,
    /// The field the particles drift through.
    pub field: FieldProvider,
    /// Source of respawn draws.
    pub rng: RandomSource,
    /// Magnitude scale calibrated once, at construction, from the field's
    /// representative samples; immutable thereafter.
    pub field_max_magnitude: i64,
    /// Number of valid render-buffer entries after the last tick.
    pub alive_count: usize,
    /// Least camera distance among the last tick's survivors; `i64::MAX`,
    /// standing for an unbounded distance, when there was none.
    pub min_camera_dist: i64,
    /// Greatest camera distance among the last tick's survivors; `0` when
    /// there was none.
    pub max_camera_dist: i64,
}

impl ParticleEngine {
    /// The engine's invariant: buffers sized to the pool, the alive count
    /// within bounds, the magnitude scale within its range, and every
    /// particle well-formed.
    pub open spec fn wf(self) -> bool {
        &&& self.field.wf()
        &&& self.render@.len() == self.particles@.len()
        &&& self.alive_count <= self.particles@.len()
        &&& 0 <= self.field_max_magnitude as int <= 2 * FX_LIMIT as int
        &&& forall|i: int|
            0 <= i < self.particles@.len() ==> particle_wf(#[trigger] self.particles@[i])
    }
}

/// Everything one tick does, given the post-respawn positions `mid`: each
/// slot's new state, the render buffer's valid prefix, the alive count and
/// both camera distances follow exactly from `mid`, and `mid` itself obeys
/// the respawn rule slot by slot.
pub open spec fn update_relation(
    pre: ParticleEngine,
    post: ParticleEngine,
    p: Parameters,
    cam: CameraPose,
    mid: Seq<Vec3>,
) -> bool {
    let f = pre.field;
    let fmm = pre.field_max_magnitude as int;
    let n = pre.particles@.len() as int;
    &&& mid.len() == n
    &&& post.particles@.len() == n
    &&& forall|i: int| 0 <= i < n ==> respawn_step(pre.particles@[i], #[trigger] mid[i], p, cam)
    &&& forall|i: int|
        0 <= i < n ==> #[trigger] post.particles@[i] == stepped(f, fmm, p, pre.particles@[i], mid[i])
    &&& post.alive_count as int == render_of(f, fmm, p, mid).len()
    &&& post.render@.len() == pre.render@.len()
    &&& post.render@.subrange(0, post.alive_count as int) == render_of(f, fmm, p, mid)
    &&& post.min_camera_dist as int == min_camera(f, fmm, p, cam.position, mid)
    &&& post.max_camera_dist as int == max_camera(f, fmm, p, cam.position, mid)
    &&& post.field == pre.field
    &&& post.field_max_magnitude == pre.field_max_magnitude
}

/// A tick never writes more render records than there are pool slots: with
/// the alive count equal to the buffer's length, `0 <= alive_count <= N`
/// for every tick and every pool size.
pub proof fn lemma_render_len(f: FieldProvider, fmm: int, p: Parameters, mids: Seq<Vec3>)
    ensures
        render_of(f, fmm, p, mids).len() <= mids.len(),
    decreases mids.len(),
{
    if mids.len() > 0 {
        lemma_render_len(f, fmm, p, mids.drop_last());
    }
}

/// A tick with no survivor leaves the distance statistics at their seeds:
/// the least camera distance stays `i64::MAX` — the fixed-point stand-in
/// for an unbounded distance — and the greatest stays `0`.
pub proof fn lemma_empty_tick_defaults(
    f: FieldProvider,
    fmm: int,
    p: Parameters,
    cam_pos: Vec3,
    mids: Seq<Vec3>,
)
    requires
        render_of(f, fmm, p, mids).len() == 0,
    ensures
        min_camera(f, fmm, p, cam_pos, mids) == i64::MAX as int,
        max_camera(f, fmm, p, cam_pos, mids) == 0,
    decreases mids.len(),
{
    if mids.len() > 0 {
        lemma_render_len(f, fmm, p, mids.drop_last());
        lemma_empty_tick_defaults(f, fmm, p, cam_pos, mids.drop_last());
    }
}

/// The render buffer is a stable filter, not a reorder: ticking a pool
/// laid out as two stretches yields the first stretch's records followed
/// by the second stretch's, so survivors always appear in original slot
/// order.
pub proof fn lemma_render_of_concat(
    f: FieldProvider,
    fmm: int,
    p: Parameters,
    a: Seq<Vec3>,
    b: Seq<Vec3>,
)
    ensures
        render_of(f, fmm, p, a + b) == render_of(f, fmm, p, a) + render_of(f, fmm, p, b),
    decreases b.len(),
{
    if b.len() == 0 {
        assert(a + b =~= a);
        assert(render_of(f, fmm, p, a) + render_of(f, fmm, p, b) =~= render_of(f, fmm, p, a));
    } else {
        lemma_render_of_concat(f, fmm, p, a, b.drop_last());
        assert((a + b).drop_last() =~= a + b.drop_last());
        assert((a + b).last() == b.last());
        assert(b.drop_last().push(b.last()) =~= b);
        if survives(f, fmm, p, b.last()) {
            assert(render_of(f, fmm, p, a + b) =~= render_of(f, fmm, p, a) + render_of(
                f,
                fmm,
                p,
                b,
            ));
        } else {
            assert(render_of(f, fmm, p, a + b) =~= render_of(f, fmm, p, a) + render_of(
                f,
                fmm,
                p,
                b,
            ));
        }
    }
}

/// Every record in a tick's render buffer comes from a surviving slot: a
/// slot whose sample is invalid or out of band contributes nothing.
pub proof fn lemma_render_records_from_survivors(
    f: FieldProvider,
    fmm: int,
    p: Parameters,
    mids: Seq<Vec3>,
)
    ensures
        forall|k: int|
            0 <= k < render_of(f, fmm, p, mids).len() ==> exists|j: int|
                0 <= j < mids.len() && survives(f, fmm, p, mids[j])
                    && #[trigger] render_of(f, fmm, p, mids)[k] == record_of(f, p, mids[j]),
    decreases mids.len(),
{
    if mids.len() > 0 {
        lemma_render_records_from_survivors(f, fmm, p, mids.drop_last());
        let rest = render_of(f, fmm, p, mids.drop_last());
        assert forall|k: int| 0 <= k < render_of(f, fmm, p, mids).len() implies exists|j: int|
            0 <= j < mids.len() && survives(f, fmm, p, mids[j])
                && #[trigger] render_of(f, fmm, p, mids)[k] == record_of(f, p, mids[j]) by {
            if k < rest.len() {
                assert(rest[k] == render_of(f, fmm, p, mids)[k]);
                assert(exists|j: int|
                    0 <= j < mids.drop_last().len() && survives(f, fmm, p, mids.drop_last()[j])
                        && #[trigger] render_of(f, fmm, p, mids.drop_last())[k] == record_of(
                        f,
                        p,
                        mids.drop_last()[j],
                    ));
                let j0 = choose|j: int|
                    0 <= j < mids.drop_last().len() && survives(f, fmm, p, mids.drop_last()[j])
                        && #[trigger] render_of(f, fmm, p, mids.drop_last())[k] == record_of(
                        f,
                        p,
                        mids.drop_last()[j],
                    );
                assert(mids.drop_last()[j0] == mids[j0]);
                assert(0 <= j0 < mids.len() && survives(f, fmm, p, mids[j0]) && render_of(
                    f,
                    fmm,
                    p,
                    mids,
                )[k] == record_of(f, p, mids[j0]));
            } else {
                let j0 = mids.len() - 1;
                assert(0 <= j0 < mids.len() && survives(f, fmm, p, mids[j0]) && render_of(
                    f,
                    fmm,
                    p,
                    mids,
                )[k] == record_of(f, p, mids[j0]));
            }
        }
    }
}

/// Boundary inclusivity of the band-pass filter: both retiring
/// comparisons are strict, so a magnitude exactly on a threshold survives,
/// while one below the low threshold or above the high threshold is
/// retired.
pub proof fn lemma_band_boundaries(f: FieldProvider, fmm: int, p: Parameters, pos: Vec3, d: Vec3)
    requires
        f.spec_sample(pos) == Some(d),
    ensures
        norm_spec(d) == threshold_low(fmm, p) && norm_spec(d) <= threshold_high(fmm, p)
            ==> survives(f, fmm, p, pos),
        norm_spec(d) == threshold_high(fmm, p) && norm_spec(d) >= threshold_low(fmm, p)
            ==> survives(f, fmm, p, pos),
        norm_spec(d) < threshold_low(fmm, p) ==> !survives(f, fmm, p, pos),
        norm_spec(d) > threshold_high(fmm, p) ==> !survives(f, fmm, p, pos),
{
}

/// A slot whose sample is invalid is retired on the spot: its age becomes
/// the kill sentinel — at or above the respawn threshold, so it respawns
/// at its very next evaluation — its position is left where it stood, and,
/// not being a survivor, it contributes nothing to the render buffer (see
/// [`lemma_render_records_from_survivors`]).
pub proof fn lemma_invalid_sample_retired(
    pre: ParticleEngine,
    post: ParticleEngine,
    p: Parameters,
    cam: CameraPose,
    mid: Seq<Vec3>,
    i: int,
)
    requires
        update_relation(pre, post, p, cam, mid),
        0 <= i < pre.particles@.len(),
        pre.field.spec_sample(mid[i]) is None,
    ensures
        post.particles@[i].age == KILL_SENTINEL,
        post.particles@[i].age >= RESPAWN_THRESHOLD,
        !survives(pre.field, pre.field_max_magnitude as int, p, mid[i]),
        post.particles@[i].position == mid[i],
{
    assert(post.particles@[i] == stepped(
        pre.field,
        pre.field_max_magnitude as int,
        p,
        pre.particles@[i],
        mid[i],
    ));
}

/// One coordinate of the direction step: normalizing against `du` keeps
/// `du * |n| <= SCALE * |d|`, so the squares order the same way.
proof fn lemma_dir_coord_sq(d: int, du: int, n: int)
    requires
        du >= 1,
        n == tdiv(d * SCALE as int, du),
    ensures
        sq(du) * sq(n) <= sq(SCALE as int) * sq(d),
{
    let s = SCALE as int;
    lemma_tdiv_mag(d * s, du);
    lemma_mul_is_commutative(d, s);
    lemma_abs_mul_pos(s, d);
    lemma_abs_mul_pos(du, n);
    lemma_sq_from_abs(du * n, s * d);
    lemma_sq_mul(du, n);
    lemma_sq_mul(s, d);
}

/// One coordinate of the radial step: scaling by `dist` and truncating
/// keeps `SCALE * |o| <= dist * |n|`, so the squares order the same way.
proof fn lemma_radial_coord_sq(n: int, dist: int, o: int)
    requires
        dist >= 0,
        o == clamp_fx(tdiv(n * dist, SCALE as int)),
    ensures
        sq(SCALE as int) * sq(o) <= sq(dist) * sq(n),
{
    let s = SCALE as int;
    lemma_clamp_mag(tdiv(n * dist, s));
    lemma_tdiv_mag(n * dist, s);
    lemma_mul_is_commutative(n, dist);
    lemma_abs_mul_pos(dist, n);
    lemma_abs_mul_pos(s, o);
    assert(s * abs(o) <= s * abs(tdiv(n * dist, s))) by (nonlinear_arith)
        requires
            abs(o) <= abs(tdiv(n * dist, s)),
            s >= 1,
    ;
    lemma_sq_from_abs(s * o, dist * n);
    lemma_sq_mul(s, o);
    lemma_sq_mul(dist, n);
}

/// Core bound of the respawn sampler: scaling a fixed-point-normalized
/// direction `(n1, n2, n3)` by a radial distance drawn below the squared
/// radius lands strictly inside the radius, truncation and saturation
/// included.
proof fn lemma_respawn_offset_bound(
    d1: int,
    d2: int,
    d3: int,
    q: int,
    dt: int,
    du: int,
    n1: int,
    n2: int,
    n3: int,
    u: int,
    dist: int,
    r2: int,
    radius: int,
    o1: int,
    o2: int,
    o3: int,
)
    requires
        q == sq(d1) + sq(d2) + sq(d3),
        dt == isqrt(q as nat) as int,
        du == dt + 1,
        n1 == tdiv(d1 * SCALE as int, du),
        n2 == tdiv(d2 * SCALE as int, du),
        n3 == tdiv(d3 * SCALE as int, du),
        0 <= u < r2,
        r2 * SCALE as int <= sq(radius),
        radius >= 1,
        dist == isqrt((u * SCALE as int) as nat) as int,
        o1 == clamp_fx(tdiv(n1 * dist, SCALE as int)),
        o2 == clamp_fx(tdiv(n2 * dist, SCALE as int)),
        o3 == clamp_fx(tdiv(n3 * dist, SCALE as int)),
    ensures
        sq(o1) + sq(o2) + sq(o3) < sq(radius),
{
    let s = SCALE as int;
    lemma_sq_nonneg(d1);
    lemma_sq_nonneg(d2);
    lemma_sq_nonneg(d3);
    lemma_sq_nonneg(n1);
    lemma_sq_nonneg(n2);
    lemma_sq_nonneg(n3);
    lemma_sq_nonneg(o1);
    lemma_sq_nonneg(o2);
    lemma_sq_nonneg(o3);
    lemma_isqrt_bounds(q as nat);
    assert(du >= 1);
    // Direction step: du * |n_i| <= s * |d_i|, squared.
    lemma_dir_coord_sq(d1, du, n1);
    lemma_dir_coord_sq(d2, du, n2);
    lemma_dir_coord_sq(d3, du, n3);
    // The drawn direction is shorter than one unit once normalized:
    // du^2 * sum(n^2) <= s^2 * q and q <= du^2 - 1 give sum(n^2) < s^2.
    assert(q <= sq(du) - 1);
    let sn = sq(n1) + sq(n2) + sq(n3);
    assert(sq(du) * sn <= sq(s) * q) by (nonlinear_arith)
        requires
            sq(du) * sq(n1) <= sq(s) * sq(d1),
            sq(du) * sq(n2) <= sq(s) * sq(d2),
            sq(du) * sq(n3) <= sq(s) * sq(d3),
            q == sq(d1) + sq(d2) + sq(d3),
            sn == sq(n1) + sq(n2) + sq(n3),
    ;
    assert(sn <= sq(s) - 1) by (nonlinear_arith)
        requires
            sq(du) * sn <= sq(s) * q,
            q <= sq(du) - 1,
            sq(du) >= 1,
            sq(s) >= 1,
            sn >= 0,
    ;
    // Radial step: s * |o_i| <= dist * |n_i|, squared.
    assert(dist >= 0);
    lemma_radial_coord_sq(n1, dist, o1);
    lemma_radial_coord_sq(n2, dist, o2);
    lemma_radial_coord_sq(n3, dist, o3);
    let so = sq(o1) + sq(o2) + sq(o3);
    lemma_sq_nonneg(dist);
    assert(sq(s) * so <= sq(dist) * sn) by (nonlinear_arith)
        requires
            sq(s) * sq(o1) <= sq(dist) * sq(n1),
            sq(s) * sq(o2) <= sq(dist) * sq(n2),
            sq(s) * sq(o3) <= sq(dist) * sq(n3),
            so == sq(o1) + sq(o2) + sq(o3),
            sn == sq(n1) + sq(n2) + sq(n3),
    ;
    // The drawn radial distance stays below the radius.
    lemma_mul_bound(0, 0, u, s);
    lemma_isqrt_bounds((u * s) as nat);
    assert(sq(dist) <= u * s);
    assert(u * s < r2 * s) by (nonlinear_arith)
        requires
            u < r2,
            s >= 1,
    ;
    lemma_mul_bound(1, 1, radius, radius);
    assert(sq(radius) >= 1);
    // Combine: so < sq(dist) unless dist is zero, and either way below
    // the squared radius.
    if dist == 0 {
        assert(sq(s) * so <= 0) by (nonlinear_arith)
            requires
                sq(s) * so <= sq(dist) * sn,
                sq(dist) == 0,
                sn >= 0,
        ;
        assert(so <= 0) by (nonlinear_arith)
            requires
                sq(s) * so <= 0,
                sq(s) >= 1,
        ;
    } else {
        lemma_mul_bound(1, 1, dist, dist);
        assert(so < sq(dist)) by (nonlinear_arith)
            requires
                sq(s) * so <= sq(dist) * sn,
                sn <= sq(s) - 1,
                sq(s) >= 1,
                sq(dist) >= 1,
                so >= 0,
        ;
    }
}

/// Moves a particle one integration step along its field sample, exactly
/// as [`integrate`] states.
fn advance(pos: &Vec3, d: &Vec3, k: i64) -> (r: Vec3)
    requires
        pos.wf(),
        d.wf(),
        0 <= k <= FX_LIMIT,
    ensures
        r == integrate(*pos, *d, k as int),
        r.wf(),
{
    let sx: i64 = fx_mul(d.x, k);
    let sy: i64 = fx_mul(d.y, k);
    let sz: i64 = fx_mul(d.z, k);
    Vec3 { x: fx_add(pos.x, sx), y: fx_add(pos.y, sy), z: fx_add(pos.z, sz) }
}

/// Where freshly constructed particles are scattered: a small cube around
/// the origin, half a unit each way.
pub open spec fn in_seed_cube(v: Vec3) -> bool {
    &&& -(SPAWN_HALF as int) <= v.x as int && (v.x as int) < SPAWN_HALF as int
    &&& -(SPAWN_HALF as int) <= v.y as int && (v.y as int) < SPAWN_HALF as int
    &&& -(SPAWN_HALF as int) <= v.z as int && (v.z as int) < SPAWN_HALF as int
}

/// Draws a fresh position for a respawned particle: three independent
/// uniform draws give a direction, normalized in fixed point; a radial
/// distance is drawn as `sqrt(uniform(0, radius^2))`, skewing the radial
/// density toward the surface on purpose; the scaled direction offsets the
/// camera target.  Whatever the generator returns, the new position lies
/// strictly within `radius` of the target; an all-zero direction draw
/// degenerates to the target itself rather than dividing by zero.
pub fn respawn_position(rng: &mut RandomSource, target: &Vec3, radius: i64) -> (pos: Vec3)
    requires
        target.wf(),
        SPAWN_RADIUS_BASE as int <= radius as int <= FX_LIMIT as int,
    ensures
        pos.wf(),
        dist_sq(pos, *target) < sq(radius as int),
{
    let dx: i64 = rng.draw(-SCALE, SCALE);
    let dy: i64 = rng.draw(-SCALE, SCALE);
    let dz: i64 = rng.draw(-SCALE, SCALE);
    let r2: i64 = fx_mul(radius, radius);
    proof {
        // radius^2 / SCALE is at least 10_000, so the radial draw below is
        // from a nonempty range.
        lemma_mul_inequality(SPAWN_RADIUS_BASE as int, radius as int, SPAWN_RADIUS_BASE as int);
        lemma_mul_is_commutative(radius as int, SPAWN_RADIUS_BASE as int);
        lemma_mul_inequality(SPAWN_RADIUS_BASE as int, radius as int, radius as int);
        assert((SPAWN_RADIUS_BASE as int) * (SPAWN_RADIUS_BASE as int) == 10_000_000_000int)
            by (nonlinear_arith);
        assert(sq(radius as int) >= 10_000_000_000);
        lemma_div_is_ordered(10_000_000_000, sq(radius as int), SCALE as int);
        assert(10_000_000_000int == 10_000int * 1_000_000int) by (nonlinear_arith);
        lemma_fundamental_div_mod_converse(10_000_000_000, SCALE as int, 10_000, 0);
        assert(r2 >= 10_000);
        // And r2 * SCALE never exceeds radius^2.
        lemma_fundamental_div_mod(sq(radius as int), SCALE as int);
        lemma_mod_bound(sq(radius as int), SCALE as int);
        lemma_mul_inequality(r2 as int, sq(radius as int) / (SCALE as int), SCALE as int);
        lemma_mul_is_commutative(sq(radius as int) / (SCALE as int), SCALE as int);
        assert(r2 as int * SCALE as int <= sq(radius as int));
    }
    let u: i64 = rng.draw(0, r2);
    let dist: i64 = fx_sqrt(u);
    let dt: i64 = norm3(dx, dy, dz);
    let du: i64 = dt + 1;
    proof {
        assert(dx as int * SCALE as int <= 1_000_000_000_000
            && dx as int * SCALE as int >= -1_000_000_000_000
            && dy as int * SCALE as int <= 1_000_000_000_000
            && dy as int * SCALE as int >= -1_000_000_000_000
            && dz as int * SCALE as int <= 1_000_000_000_000
            && dz as int * SCALE as int >= -1_000_000_000_000) by (nonlinear_arith)
            requires
                -1_000_000 <= dx as int <= 1_000_000,
                -1_000_000 <= dy as int <= 1_000_000,
                -1_000_000 <= dz as int <= 1_000_000,
                SCALE as int == 1_000_000,
        ;
    }
    let nx: i64 = div_trunc(dx * SCALE, du);
    let ny: i64 = div_trunc(dy * SCALE, du);
    let nz: i64 = div_trunc(dz * SCALE, du);
    proof {
        // Each normalized component is a stored scalar.
        lemma_tdiv_mag(dx as int * SCALE as int, du as int);
        lemma_tdiv_mag(dy as int * SCALE as int, du as int);
        lemma_tdiv_mag(dz as int * SCALE as int, du as int);
        lemma_mul_inequality(1, du as int, abs(tdiv(dx as int * SCALE as int, du as int)) as int);
        lemma_mul_inequality(1, du as int, abs(tdiv(dy as int * SCALE as int, du as int)) as int);
        lemma_mul_inequality(1, du as int, abs(tdiv(dz as int * SCALE as int, du as int)) as int);
    }
    let ox: i64 = fx_mul(nx, dist);
    let oy: i64 = fx_mul(ny, dist);
    let oz: i64 = fx_mul(nz, dist);
    let px: i64 = fx_add(target.x, ox);
    let py: i64 = fx_add(target.y, oy);
    let pz: i64 = fx_add(target.z, oz);
    let pos = Vec3 { x: px, y: py, z: pz };
    proof {
        lemma_respawn_offset_bound(
            dx as int,
            dy as int,
            dz as int,
            sq(dx as int) + sq(dy as int) + sq(dz as int),
            dt as int,
            du as int,
            nx as int,
            ny as int,
            nz as int,
            u as int,
            dist as int,
            r2 as int,
            radius as int,
            ox as int,
            oy as int,
            oz as int,
        );
        lemma_clamp_add_close(target.x as int, ox as int);
        lemma_clamp_add_close(target.y as int, oy as int);
        lemma_clamp_add_close(target.z as int, oz as int);
        lemma_sq_from_abs(px as int - target.x as int, ox as int);
        lemma_sq_from_abs(py as int - target.y as int, oy as int);
        lemma_sq_from_abs(pz as int - target.z as int, oz as int);
    }
    pos
}

impl ParticleEngine {
    /// Builds an engine with `n` particles scattered uniformly in a small
    /// cube around the origin and ages staggered linearly across the
    /// respawn threshold, so respawns spread over time instead of pulsing.
    /// The magnitude scale is calibrated once from the field's
    /// representative samples; construction fails exactly when that sample
    /// set is empty.
    pub fn new(n: usize, field: FieldProvider, rng: RandomSource) -> (r: Result<
        ParticleEngine,
        ConfigurationError,
    >)
        requires
            field.wf(),
        ensures
            match r {
                Ok(e) => {
                    &&& e.wf()
                    &&& e.field == field
                    &&& e.particles@.len() == n
                    &&& e.render@.len() == n
                    &&& e.field_max_magnitude as int == max_norm(field.samples@)
                    &&& e.alive_count == 0
                    &&& e.min_camera_dist == 0
                    &&& e.max_camera_dist == 0
                    &&& forall|i: int|
                        0 <= i < n ==> in_seed_cube((#[trigger] e.particles@[i]).position)
                    &&& forall|i: int|
                        0 <= i < n ==> (#[trigger] e.particles@[i]).age as int == (i
                            * RESPAWN_THRESHOLD as int) / (n as int)
                    &&& field.samples@.len() > 0
                },
                Err(e) => e == ConfigurationError::EmptySampleSet && field.samples@.len() == 0,
            },
    {
        if field.samples.len() == 0 {
            return Err(ConfigurationError::EmptySampleSet);
        }
        let fmm: i64 = max_magnitude(&field.samples);
        let mut rng = rng;
        let mut particles: Vec<Particle> = Vec::new();
        let mut render: Vec<RenderRecord> = Vec::new();
        let mut i: usize = 0;
        while i < n
            invariant
                0 <= i <= n,
                particles@.len() == i,
                render@.len() == i,
                forall|j: int| 0 <= j < i ==> particle_wf(#[trigger] particles@[j]),
                forall|j: int| 0 <= j < i ==> in_seed_cube((#[trigger] particles@[j]).position),
                forall|j: int|
                    0 <= j < i ==> (#[trigger] particles@[j]).age as int == (j
                        * RESPAWN_THRESHOLD as int) / (n as int),
            decreases n - i,
        {
            let x: i64 = rng.draw(-SPAWN_HALF, SPAWN_HALF);
            let y: i64 = rng.draw(-SPAWN_HALF, SPAWN_HALF);
            let z: i64 = rng.draw(-SPAWN_HALF, SPAWN_HALF);
            proof {
                let ii = i as int;
                let nn = n as int;
                lemma_div_pos_is_pos(ii * 100, nn);
                lemma_fundamental_div_mod(ii * 100, nn);
                lemma_mod_bound(ii * 100, nn);
                if (ii * 100) / nn >= 100 {
                    lemma_mul_inequality(100, (ii * 100) / nn, nn);
                    lemma_mul_is_commutative((ii * 100) / nn, nn);
                    assert(false);
                }
            }
            let age: u32 = ((i as u128 * RESPAWN_THRESHOLD as u128) / (n as u128)) as u32;
            particles.push(Particle { position: Vec3 { x, y, z }, age });
            render.push(RenderRecord { position: Vec3 { x: 0, y: 0, z: 0 }, intensity: 0 });
            i = i + 1;
        }
        Ok(
            ParticleEngine {
                particles,
                render,
                field,
                rng,
                field_max_magnitude: fmm,
                alive_count: 0,
                min_camera_dist: 0,
                max_camera_dist: 0,
            },
        )
    }

    /// Reads one valid render-buffer entry of the last tick.
    pub fn render_record(&self, i: usize) -> (r: RenderRecord)
        requires
            i < self.alive_count,
            self.alive_count <= self.render@.len(),
        ensures
            r == self.render@[i as int],
    {
        self.render[i]
    }

    /// Runs one simulation tick: respawns over-age slots near the camera
    /// target, integrates every particle along its field sample, retires
    /// slots with invalid or out-of-band samples, and rebuilds the render
    /// buffer with the survivors in slot order, together with the least
    /// and greatest survivor camera distance.
    ///
    /// The whole tick is pinned down by [`update_relation`], witnessed by
    /// some sequence of post-respawn positions; in particular the alive
    /// count never exceeds the pool size, and a tick with no survivor
    /// leaves the distance statistics at their seeds.
    pub fn update(&mut self, parameters: &Parameters, camera: &CameraPose)
        requires
            old(self).wf(),
            parameters.wf(),
            camera.wf(),
        ensures
            final(self).wf(),
            final(self).particles@.len() == old(self).particles@.len(),
            final(self).render@.len() == old(self).render@.len(),
            final(self).field == old(self).field,
            final(self).field_max_magnitude == old(self).field_max_magnitude,
            final(self).alive_count <= final(self).particles@.len(),
            final(self).alive_count == 0 ==> final(self).min_camera_dist == i64::MAX
                && final(self).max_camera_dist == 0,
            exists|mid: Seq<Vec3>|
                #[trigger] update_relation(*old(self), *final(self), *parameters, *camera, mid),
    {
        let ghost pre: ParticleEngine = *self;
        let ghost f = pre.field;
        let ghost fmm = pre.field_max_magnitude as int;
        let n: usize = self.particles.len();
        let radius: i64 = scale_frac(parameters.seed_radius_scale, SPAWN_HALF)
            + SPAWN_RADIUS_BASE;
        proof {
            // radius stays within the saturation bound: the scaled term is
            // at most half the bound.
            lemma_mul_inequality(
                parameters.seed_radius_scale as int,
                FX_LIMIT as int,
                SPAWN_HALF as int,
            );
            lemma_div_is_ordered(
                parameters.seed_radius_scale as int * SPAWN_HALF as int,
                FX_LIMIT as int * SPAWN_HALF as int,
                SCALE as int,
            );
            assert(FX_LIMIT as int * SPAWN_HALF as int == 500_000_000_000_000_000int)
                by (nonlinear_arith);
            lemma_fundamental_div_mod_converse(
                500_000_000_000_000_000,
                SCALE as int,
                500_000_000_000,
                0,
            );
        }
        let k: i64 = scale_frac(parameters.speed_multiplier, SPEED_STEP);
        let t_lo: i64 = scale_frac(self.field_max_magnitude, parameters.highpass);
        let t_hi: i64 = scale_frac(self.field_max_magnitude, parameters.lowpass);
        self.alive_count = 0;
        self.min_camera_dist = i64::MAX;
        self.max_camera_dist = 0;
        let ghost mut mids: Seq<Vec3> = Seq::empty();
        let mut i: usize = 0;
        while i < n
            invariant
                0 <= i <= n,
                pre.wf(),
                parameters.wf(),
                camera.wf(),
                n == pre.particles@.len(),
                self.particles@.len() == n,
                self.render@.len() == n,
                self.field == f,
                f == pre.field,
                self.field_max_magnitude == pre.field_max_magnitude,
                fmm == pre.field_max_magnitude as int,
                radius as int == spawn_radius(*parameters),
                SPAWN_RADIUS_BASE as int <= radius as int <= FX_LIMIT as int,
                k as int == speed_coeff(*parameters),
                0 <= k <= FX_LIMIT,
                t_lo as int == threshold_low(fmm, *parameters),
                t_hi as int == threshold_high(fmm, *parameters),
                mids.len() == i,
                forall|j: int|
                    0 <= j < i ==> respawn_step(
                        pre.particles@[j],
                        #[trigger] mids[j],
                        *parameters,
                        *camera,
                    ),
                forall|j: int|
                    0 <= j < i ==> #[trigger] self.particles@[j] == stepped(
                        f,
                        fmm,
                        *parameters,
                        pre.particles@[j],
                        mids[j],
                    ),
                forall|j: int| i <= j < n ==> self.particles@[j] == pre.particles@[j],
                forall|j: int|
                    0 <= j < n ==> particle_wf(#[trigger] self.particles@[j]),
                self.alive_count as int == render_of(f, fmm, *parameters, mids).len(),
                self.alive_count <= i,
                self.render@.subrange(0, self.alive_count as int) == render_of(
                    f,
                    fmm,
                    *parameters,
                    mids,
                ),
                self.min_camera_dist as int == min_camera(f, fmm, *parameters, camera.position, mids),
                self.max_camera_dist as int == max_camera(f, fmm, *parameters, camera.position, mids),
            decreases n - i,
        {
            let ghost mids0 = mids;
            let ghost render0 = self.render@;
            let p: Particle = self.particles[i];
            let pos0: Vec3;
            let age0: u32;
            if p.age > RESPAWN_THRESHOLD {
                pos0 = respawn_position(&mut self.rng, &camera.target, radius);
                age0 = 0;
            } else {
                pos0 = p.position;
                age0 = p.age;
            }
            proof {
                mids = mids.push(pos0);
                assert(mids.drop_last() =~= mids0);
                assert(mids.last() == pos0);
                assert(respawn_step(pre.particles@[i as int], pos0, *parameters, *camera));
            }
            let sample: Option<Vec3> = self.field.sample_delta(&pos0);
            proof {
                assert(f.spec_sample(pos0) == sample);
            }
            match sample {
                None => {
                    self.particles[i] = Particle { position: pos0, age: KILL_SENTINEL };
                    proof {
                        assert(!survives(f, fmm, *parameters, pos0));
                        assert(render_of(f, fmm, *parameters, mids) =~= render_of(
                            f,
                            fmm,
                            *parameters,
                            mids0,
                        ));
                    }
                },
                Some(d) => {
                    let newpos: Vec3 = advance(&pos0, &d, k);
                    let mag: i64 = magnitude(&d);
                    if mag < t_lo || mag > t_hi {
                        self.particles[i] = Particle { position: newpos, age: KILL_SENTINEL };
                        proof {
                            assert(!survives(f, fmm, *parameters, pos0));
                            assert(render_of(f, fmm, *parameters, mids) =~= render_of(
                                f,
                                fmm,
                                *parameters,
                                mids0,
                            ));
                        }
                    } else {
                        let cd: i64 = distance(&camera.position, &newpos);
                        if cd < self.min_camera_dist {
                            self.min_camera_dist = cd;
                        }
                        if cd > self.max_camera_dist {
                            self.max_camera_dist = cd;
                        }
                        let rec = RenderRecord {
                            position: newpos,
                            intensity: INTENSITY_FACTOR * mag,
                        };
                        let idx: usize = self.alive_count;
                        self.render[idx] = rec;
                        self.alive_count = idx + 1;
                        self.particles[i] = Particle { position: newpos, age: age0 + 1 };
                        proof {
                            assert(survives(f, fmm, *parameters, pos0));
                            assert(rec == record_of(f, *parameters, pos0));
                            assert(render_of(f, fmm, *parameters, mids) =~= render_of(
                                f,
                                fmm,
                                *parameters,
                                mids0,
                            ).push(rec));
                            assert(self.render@.subrange(0, self.alive_count as int)
                                =~= render0.subrange(0, idx as int).push(rec));
                        }
                    }
                },
            }
            proof {
                assert(self.particles@[i as int] == stepped(
                    f,
                    fmm,
                    *parameters,
                    pre.particles@[i as int],
                    pos0,
                ));
            }
            i = i + 1;
        }
        proof {
            lemma_render_len(f, fmm, *parameters, mids);
            assert(update_relation(pre, *self, *parameters, *camera, mids));
            if self.alive_count == 0 {
                lemma_empty_tick_defaults(f, fmm, *parameters, camera.position, mids);
            }
        }
    }
}

} // verus!

