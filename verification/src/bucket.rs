//! Distance buckets.
//!
//! A bucket with index `m >= 1` covers the half-open distance interval
//! `((m - 1) * step, m * step]`: a distance equal to an exact multiple
//! `k * step` belongs to bucket `k`, the next larger distance to bucket
//! `k + 1`, and a distance of zero to bucket 1. Distances are carried in
//! millimetres so that the rule is exact integer arithmetic; the step is
//! given in kilometres.

use vstd::prelude::*;

verus! {

/// Millimetres in one kilometre.
pub const MM_PER_KM: u64 = 1_000_000;

/// Largest step size, in kilometres, whose width in millimetres still
/// fits in a `u64`.
pub const MAX_STEP_KM: u64 = 18_446_744_073_709;

/// Width of a bucket in millimetres for a step size in kilometres.
pub open spec fn step_width_mm(step_km: u64) -> nat {
    (step_km * MM_PER_KM) as nat
}

/// The bucket a distance falls in: the smallest `m >= 1` with
/// `distance_mm <= m * step_mm`, i.e. the ceiling of
/// `distance_mm / step_mm`, with a distance of zero in bucket 1.
pub open spec fn spec_bucket(distance_mm: nat, step_mm: nat) -> nat
    recommends
        step_mm >= 1,
{
    if distance_mm == 0 {
        1
    } else {
        (((distance_mm - 1) / step_mm as int) + 1) as nat
    }
}

/// Every bucket index is at least 1.
pub proof fn lemma_bucket_at_least_one(distance_mm: nat, step_mm: nat)
    requires
        step_mm >= 1,
    ensures
        spec_bucket(distance_mm, step_mm) >= 1,
{
    if distance_mm > 0 {
        vstd::arithmetic::div_mod::lemma_div_pos_is_pos(distance_mm - 1, step_mm as int);
    }
}

/// Buckets grow with distance: a nearer point never lands in a later
/// bucket than a farther one measured with the same step size.
pub proof fn lemma_bucket_monotonic(d1: nat, d2: nat, step_mm: nat)
    requires
        step_mm >= 1,
        d1 <= d2,
    ensures
        spec_bucket(d1, step_mm) <= spec_bucket(d2, step_mm),
{
    if d1 == 0 {
        lemma_bucket_at_least_one(d2, step_mm);
    } else {
        vstd::arithmetic::div_mod::lemma_div_is_ordered(
            d1 - 1,
            d2 - 1,
            step_mm as int,
        );
    }
}

/// The boundary rule: a distance of exactly `k` steps belongs to bucket
/// `k`, and any distance beyond it, however small the excess, to bucket
/// `k + 1`.
pub proof fn lemma_bucket_boundary(k: nat, step_mm: nat)
    requires
        step_mm >= 1,
        k >= 1,
    ensures
        spec_bucket(k * step_mm, step_mm) == k,
        spec_bucket(k * step_mm + 1, step_mm) == k + 1,
{
    assert(k * step_mm >= 1) by (nonlinear_arith)
        requires
            k >= 1,
            step_mm >= 1,
    ;
    assert(k * step_mm - 1 == (k - 1) * step_mm + (step_mm - 1)) by (nonlinear_arith);
    vstd::arithmetic::div_mod::lemma_fundamental_div_mod_converse(
        k * step_mm - 1,
        step_mm as int,
        k - 1,
        step_mm - 1,
    );
    assert(k * step_mm + 1 - 1 == k * step_mm + 0) by (nonlinear_arith);
    vstd::arithmetic::div_mod::lemma_fundamental_div_mod_converse(
        k * step_mm as int,
        step_mm as int,
        k as int,
        0,
    );
}

/// A positive distance lies strictly above the lower edge and at or
/// below the upper edge of its bucket: with `b = spec_bucket(d, s)`,
/// `(b - 1) * s < d <= b * s`.
pub proof fn lemma_bucket_interval(d: nat, step_mm: nat)
    requires
        step_mm >= 1,
        d >= 1,
    ensures
        (spec_bucket(d, step_mm) - 1) * step_mm < d,
        d <= spec_bucket(d, step_mm) * step_mm,
{
    let q = (d - 1) / step_mm as int;
    let r = (d - 1) % step_mm as int;
    vstd::arithmetic::div_mod::lemma_fundamental_div_mod(d - 1, step_mm as int);
    vstd::arithmetic::div_mod::lemma_div_pos_is_pos(d - 1, step_mm as int);
    assert(0 <= r < step_mm);
    assert(d - 1 == step_mm * q + r);
    assert(spec_bucket(d, step_mm) == q + 1);
    assert(q * step_mm == step_mm * q) by (nonlinear_arith);
    assert((q + 1) * step_mm == step_mm * q + step_mm) by (nonlinear_arith);
}

/// Executable form of the bucket rule.
pub fn bucket_index(distance_mm: u64, step_km: u64) -> (m: u64)
    requires
        1 <= step_km <= MAX_STEP_KM,
    ensures
        m as nat == spec_bucket(distance_mm as nat, step_width_mm(step_km)),
        1 <= m,
        m as int <= distance_mm as int / (MM_PER_KM as int) + 1,
{
    proof {
        assert(step_km * MM_PER_KM <= u64::MAX) by (nonlinear_arith)
            requires
                step_km <= 18_446_744_073_709u64,
        ;
    }
    let step_mm = step_km * MM_PER_KM;
    if distance_mm == 0 {
        proof {
            vstd::arithmetic::div_mod::lemma_div_pos_is_pos(
                distance_mm as int,
                MM_PER_KM as int,
            );
        }
        1
    } else {
        proof {
            vstd::arithmetic::div_mod::lemma_div_is_ordered_by_denominator(
                distance_mm - 1,
                MM_PER_KM as int,
                step_mm as int,
            );
            vstd::arithmetic::div_mod::lemma_div_is_ordered(
                distance_mm - 1,
                distance_mm as int,
                MM_PER_KM as int,
            );
        }
        (distance_mm - 1) / step_mm + 1
    }
}

} // verus!
