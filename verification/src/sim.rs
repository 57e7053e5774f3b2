//! The similarity function: a dot product over fixed-point vectors, the
//! rounding used to present similarities on the percentage scale, and the
//! tolerance test that decides whether a vocabulary word is consistent with
//! a declared similarity.
//!
//! Unit conventions, with `COMP_SCALE == 10^4`:
//! - a stored component is the real component scaled by `10^4`;
//! - the dot product of two stored vectors is the real similarity scaled
//!   by `10^8`;
//! - a declared similarity (a "percentage" in `[-100, 100]`) is kept in
//!   milli-percent, the real similarity scaled by `10^5`;
//! - a displayed score is kept in centi-percent, the real similarity
//!   rounded to `10^4` units (two decimal places on the percent scale).

use vstd::prelude::*;

use crate::MAX_COMP;
use crate::MAX_DIM;

verus! {

/// Dot-product units per milli-percent of declared similarity.
pub const TARGET_UNIT: i64 = 1_000;

/// Half-width of the consistency window around a declared similarity,
/// in dot-product units: 0.005 on the percent scale, which absorbs the
/// two-decimal rounding the display applies to similarities.
pub const TOLERANCE: i64 = 5_000;

/// Dot-product units per centi-percent, one step of a displayed score.
pub const SCORE_UNIT: i64 = 10_000;

/// Largest declared similarity, in milli-percent (100 percent).
pub const MAX_TARGET: i64 = 100_000;

/// Largest magnitude a dot product of two well-formed vectors can take.
pub const MAX_DOT: i64 = 4_096_000_000_000_000;

/// Dot product of two equal-length integer vectors, in `10^-8` units of
/// real similarity.
pub open spec fn spec_dot(a: Seq<i64>, b: Seq<i64>) -> int
    decreases a.len(),
{
    if a.len() == 0 || b.len() == 0 {
        0
    } else {
        spec_dot(a.drop_last(), b.drop_last()) + a.last() * b.last()
    }
}

/// Every component of `a` has magnitude at most `MAX_COMP`.
pub open spec fn comps_bounded(a: Seq<i64>) -> bool {
    forall|i: int| 0 <= i < a.len() ==> -MAX_COMP <= #[trigger] a[i] <= MAX_COMP
}

/// The dot product of bounded vectors is bounded by `len * MAX_COMP^2`.
pub proof fn lemma_dot_bound(a: Seq<i64>, b: Seq<i64>)
    requires
        a.len() == b.len(),
        comps_bounded(a),
        comps_bounded(b),
    ensures
        -(a.len() * MAX_COMP * MAX_COMP) <= spec_dot(a, b) <= a.len() * MAX_COMP * MAX_COMP,
    decreases a.len(),
{
    if a.len() > 0 {
        lemma_dot_bound(a.drop_last(), b.drop_last());
        assert(-MAX_COMP <= a.last() <= MAX_COMP);
        assert(-MAX_COMP <= b.last() <= MAX_COMP);
        assert(-(MAX_COMP * MAX_COMP) <= a.last() * b.last() <= MAX_COMP * MAX_COMP)
            by (nonlinear_arith)
            requires
                -MAX_COMP <= a.last() <= MAX_COMP,
                -MAX_COMP <= b.last() <= MAX_COMP,
        ;
        assert((a.len() - 1) * MAX_COMP * MAX_COMP + MAX_COMP * MAX_COMP
            == a.len() * MAX_COMP * MAX_COMP) by (nonlinear_arith);
    }
}

/// The dot product does not depend on the order of its arguments.
pub proof fn lemma_dot_commutes(a: Seq<i64>, b: Seq<i64>)
    ensures
        spec_dot(a, b) == spec_dot(b, a),
    decreases a.len(),
{
    if a.len() > 0 && b.len() > 0 {
        lemma_dot_commutes(a.drop_last(), b.drop_last());
    }
}

/// Computes the similarity of two equal-length vectors: their dot product,
/// in `10^-8` units of real similarity.
pub fn dot_product(a: &Vec<i64>, b: &Vec<i64>) -> (r: i64)
    requires
        a@.len() == b@.len(),
        a@.len() <= MAX_DIM,
        comps_bounded(a@),
        comps_bounded(b@),
    ensures
        r == spec_dot(a@, b@),
        -MAX_DOT <= r <= MAX_DOT,
{
    let n = a.len();
    let mut sum: i64 = 0;
    let mut i: usize = 0;
    while i < n
        invariant
            i <= n,
            n == a@.len() == b@.len(),
            n <= MAX_DIM,
            comps_bounded(a@),
            comps_bounded(b@),
            sum == spec_dot(a@.take(i as int), b@.take(i as int)),
            -(i * MAX_COMP * MAX_COMP) <= sum <= i * MAX_COMP * MAX_COMP,
        decreases n - i,
    {
        proof {
            assert(comps_bounded(a@.take(i + 1)));
            assert(comps_bounded(b@.take(i + 1)));
            assert(a@.take(i + 1).drop_last() =~= a@.take(i as int));
            assert(b@.take(i + 1).drop_last() =~= b@.take(i as int));
            assert(a@.take(i + 1).last() == a@[i as int]);
            assert(b@.take(i + 1).last() == b@[i as int]);
            lemma_dot_bound(a@.take(i + 1), b@.take(i + 1));
            assert(-(MAX_COMP * MAX_COMP) <= a@[i as int] * b@[i as int] <= MAX_COMP * MAX_COMP)
                by (nonlinear_arith)
                requires
                    -MAX_COMP <= a@[i as int] <= MAX_COMP,
                    -MAX_COMP <= b@[i as int] <= MAX_COMP,
            ;
            assert((i + 1) * MAX_COMP * MAX_COMP <= MAX_DIM * MAX_COMP * MAX_COMP)
                by (nonlinear_arith)
                requires
                    i + 1 <= MAX_DIM,
            ;
        }
        sum = sum + a[i] * b[i];
        i = i + 1;
    }
    proof {
        assert(a@.take(n as int) =~= a@);
        assert(b@.take(n as int) =~= b@);
        assert(n * MAX_COMP * MAX_COMP <= MAX_DOT) by (nonlinear_arith)
            requires
                n <= MAX_DIM,
        ;
    }
    sum
}

/// A dot product `d` is consistent with a declared similarity `target`
/// (in milli-percent) when the similarity on the percent scale lies in
/// `[target - 0.005, target + 0.005)`.
pub open spec fn spec_consistent(d: int, target: int) -> bool {
    target * TARGET_UNIT - TOLERANCE <= d < target * TARGET_UNIT + TOLERANCE
}

/// Decides whether the similarity of `a` and `b` is consistent with the
/// declared similarity `target` (in milli-percent).
pub fn is_consistent(a: &Vec<i64>, b: &Vec<i64>, target: i64) -> (r: bool)
    requires
        a@.len() == b@.len(),
        a@.len() <= MAX_DIM,
        comps_bounded(a@),
        comps_bounded(b@),
        -MAX_TARGET <= target <= MAX_TARGET,
    ensures
        r == spec_consistent(spec_dot(a@, b@), target as int),
{
    let d = dot_product(a, b);
    let scaled = target * TARGET_UNIT;
    scaled - TOLERANCE <= d && d < scaled + TOLERANCE
}

/// A dot product rounded to the centi-percent scale, half away from zero:
/// the two-decimal percentage score shown for a guess, and the bucket the
/// guess advisor counts.
pub open spec fn spec_score(d: int) -> int {
    if d >= 0 {
        (d + SCORE_UNIT as int / 2) / (SCORE_UNIT as int)
    } else {
        -((-d + SCORE_UNIT as int / 2) / (SCORE_UNIT as int))
    }
}

/// Rounds a dot product to the centi-percent score scale.
pub fn score_of_dot(d: i64) -> (r: i64)
    requires
        -MAX_DOT <= d <= MAX_DOT,
    ensures
        r == spec_score(d as int),
{
    if d >= 0 {
        (((d as u64) + (SCORE_UNIT / 2) as u64) / (SCORE_UNIT as u64)) as i64
    } else {
        let neg = (-d) as u64;
        -((((neg + (SCORE_UNIT / 2) as u64) / (SCORE_UNIT as u64))) as i64)
    }
}

} // verus!
