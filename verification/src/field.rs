//! The vector field that particles drift through.
//!
//! A [`FieldProvider`] approximates a precomputed, discretized field: it
//! answers a deterministic sample for any position, and carries a
//! representative set of field vectors from which a global magnitude scale
//! is calibrated once, at engine construction.
//!
//! A sample is `Option<Vec3>`: `None` stands for a sample with an invalid
//! (not-a-number) component near a singularity of the underlying dataset —
//! a defined outcome that the engine handles by retiring the particle.

use crate::fx::{lemma_isqrt_upper, lemma_mul_bound, FX_LIMIT};
use crate::vec3::{lemma_sq_le, lemma_sq_nonneg, magnitude, norm_spec, norm_sq, Vec3};
use vstd::prelude::*;

verus! {

/// The one construction-time failure: the provider's representative sample
/// set is empty, so no magnitude scale can be calibrated.
#[derive(Clone, Copy, Debug, PartialEq, Eq, Structural)]
pub enum ConfigurationError {
    EmptySampleSet,
}

/// Whether a sample's components, when present, are stored scalars.
pub open spec fn sample_wf(s: Option<Vec3>) -> bool {
    match s {
        Some(v) => v.wf(),
        None => true,
    }
}

/// A deterministic vector field with a representative sample set.
///
/// The sample at a position is the value of the first entry listing exactly
/// that position, and `default_sample` everywhere else.
pub struct FieldProvider {
    /// Samples pinned to exact positions, in lookup order.
    pub entries: Vec<(Vec3, Option<Vec3>)>,
    /// The sample at every position no entry pins.
    pub default_sample: Option<Vec3>,
    /// Representative field vectors for calibrating the magnitude scale.
    pub samples: Vec<Vec3>,
}

/// The first entry of `s` whose position is `p`, if any.
pub open spec fn find_entry(s: Seq<(Vec3, Option<Vec3>)>, p: Vec3) -> Option<Option<Vec3>>
    decreases s.len(),
{
    if s.len() == 0 {
        None
    } else if s[0].0 == p {
        Some(s[0].1)
    } else {
        find_entry(s.drop_first(), p)
    }
}

impl FieldProvider {
    /// Every stored vector is within the saturation bound.
    pub open spec fn wf(self) -> bool {
        &&& forall|i: int|
            0 <= i < self.entries@.len() ==> (#[trigger] self.entries@[i]).0.wf() && sample_wf(
                self.entries@[i].1,
            )
        &&& sample_wf(self.default_sample)
        &&& forall|i: int| 0 <= i < self.samples@.len() ==> (#[trigger] self.samples@[i]).wf()
    }

    /// The field's sample at `p`.
    pub open spec fn spec_sample(self, p: Vec3) -> Option<Vec3> {
        match find_entry(self.entries@, p) {
            Some(s) => s,
            None => self.default_sample,
        }
    }

    /// Samples the field at `position`: pure and deterministic, `None` only
    /// where the field pins an invalid sample to the position.
    pub fn sample_delta(&self, position: &Vec3) -> (r: Option<Vec3>)
        ensures
            r == self.spec_sample(*position),
            self.wf() ==> sample_wf(r),
    {
        let n: usize = self.entries.len();
        let mut i: usize = 0;
        proof {
            assert(self.entries@.skip(0) =~= self.entries@);
        }
        while i < n
            invariant
                0 <= i <= n,
                n == self.entries@.len(),
                find_entry(self.entries@, *position) == find_entry(
                    self.entries@.skip(i as int),
                    *position,
                ),
            decreases n - i,
        {
            let e: &(Vec3, Option<Vec3>) = &self.entries[i];
            proof {
                assert(self.entries@.skip(i as int)[0] == self.entries@[i as int]);
            }
            if e.0 == *position {
                return e.1;
            }
            proof {
                assert(self.entries@.skip(i as int).drop_first() =~= self.entries@.skip(
                    i as int + 1,
                ));
            }
            i = i + 1;
        }
        proof {
            assert(self.entries@.skip(n as int) =~= Seq::<(Vec3, Option<Vec3>)>::empty());
        }
        self.default_sample
    }
}

/// The greatest length among `s`, and zero when `s` is empty.
pub open spec fn max_norm(s: Seq<Vec3>) -> int
    decreases s.len(),
{
    if s.len() == 0 {
        0int
    } else {
        let rest = max_norm(s.drop_last());
        let m = norm_spec(s.last());
        if m > rest {
            m
        } else {
            rest
        }
    }
}

/// The length of a stored vector stays below twice the saturation bound.
pub proof fn lemma_norm_bound(v: Vec3)
    requires
        v.wf(),
    ensures
        0 <= norm_spec(v) <= 2 * FX_LIMIT as int,
{
    lemma_sq_le(v.x as int, FX_LIMIT as int);
    lemma_sq_le(v.y as int, FX_LIMIT as int);
    lemma_sq_le(v.z as int, FX_LIMIT as int);
    lemma_sq_nonneg(v.x as int);
    lemma_sq_nonneg(v.y as int);
    lemma_sq_nonneg(v.z as int);
    lemma_mul_bound(FX_LIMIT as int, FX_LIMIT as int, FX_LIMIT as int, FX_LIMIT as int);
    assert(norm_sq(v) < (2 * FX_LIMIT as int + 1) * (2 * FX_LIMIT as int + 1))
        by (nonlinear_arith)
        requires
            norm_sq(v) <= 3 * ((FX_LIMIT as int) * (FX_LIMIT as int)),
    ;
    lemma_isqrt_upper(norm_sq(v) as nat, (2 * FX_LIMIT as int) as nat);
}

/// Calibrates the field's magnitude scale: the greatest length among the
/// representative samples.
pub fn max_magnitude(samples: &Vec<Vec3>) -> (r: i64)
    requires
        forall|i: int| 0 <= i < samples@.len() ==> (#[trigger] samples@[i]).wf(),
    ensures
        r as int == max_norm(samples@),
        0 <= r as int <= 2 * FX_LIMIT as int,
{
    let n: usize = samples.len();
    let mut best: i64 = 0;
    let mut i: usize = 0;
    while i < n
        invariant
            0 <= i <= n,
            n == samples@.len(),
            forall|j: int| 0 <= j < n ==> (#[trigger] samples@[j]).wf(),
            best as int == max_norm(samples@.take(i as int)),
            0 <= best as int <= 2 * FX_LIMIT as int,
        decreases n - i,
    {
        let m: i64 = magnitude(&samples[i]);
        proof {
            lemma_norm_bound(samples@[i as int]);
            assert(samples@.take(i as int + 1).drop_last() =~= samples@.take(i as int));
            assert(samples@.take(i as int + 1).last() == samples@[i as int]);
        }
        if m > best {
            best = m;
        }
        i = i + 1;
    }
    proof {
        assert(samples@.take(n as int) =~= samples@);
    }
    best
}

} // verus!
