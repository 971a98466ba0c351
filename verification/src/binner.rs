//! Distance binner.
//!
//! Turns measured places into an ordered, gap-free table: one row per
//! bucket index from the nearest populated bucket to the farthest, each
//! row carrying the number of places in the bucket and the number of
//! those currently open. Places whose distance could not be computed
//! are skipped.

use vstd::prelude::*;
use crate::bucket::MM_PER_KM;
use crate::bucket::MAX_STEP_KM;
use crate::bucket::spec_bucket;
use crate::bucket::step_width_mm;
use crate::bucket::bucket_index;

verus! {

/// One place reduced to what binning needs: the measured great-circle
/// distance from the origin in millimetres, absent when the distance
/// computation failed, and the open flag.
pub struct Measured {
    pub distance_mm: Option<u64>,
    pub open_now: bool,
}

/// One output row: a bucket index, the number of places whose distance
/// falls in the bucket, and the number of those open now.
pub struct BucketRow {
    pub index: u64,
    pub total: usize,
    pub open_now: usize,
}

/// The bucket a measured place falls in; meaningful only when its
/// distance is present.
pub open spec fn bucket_of(e: Measured, step_mm: nat) -> nat
    recommends
        e.distance_mm is Some,
{
    match e.distance_mm {
        Option::Some(d) => spec_bucket(d as nat, step_mm),
        Option::None => 0,
    }
}

/// Whether a measured place falls in bucket `m`.
pub open spec fn in_bucket(e: Measured, step_mm: nat, m: nat) -> bool {
    e.distance_mm is Some && bucket_of(e, step_mm) == m
}

/// How many places fall in bucket `m`.
pub open spec fn total_count(s: Seq<Measured>, step_mm: nat, m: nat) -> nat
    decreases s.len(),
{
    if s.len() == 0 {
        0
    } else {
        total_count(s.drop_last(), step_mm, m) + (if in_bucket(s.last(), step_mm, m) {
            1nat
        } else {
            0nat
        })
    }
}

/// How many places fall in bucket `m` and are open now.
pub open spec fn open_count(s: Seq<Measured>, step_mm: nat, m: nat) -> nat
    decreases s.len(),
{
    if s.len() == 0 {
        0
    } else {
        open_count(s.drop_last(), step_mm, m) + (if in_bucket(s.last(), step_mm, m)
            && s.last().open_now {
            1nat
        } else {
            0nat
        })
    }
}

/// Whether any place has a measured distance.
pub open spec fn any_measured(s: Seq<Measured>) -> bool {
    exists|i: int| 0 <= i < s.len() && s[i].distance_mm is Some
}

/// In every bucket, the open places are among all places: the open
/// count never exceeds the total, and the total never exceeds the
/// number of places.
pub proof fn lemma_open_le_total(s: Seq<Measured>, step_mm: nat, m: nat)
    ensures
        open_count(s, step_mm, m) <= total_count(s, step_mm, m),
        total_count(s, step_mm, m) <= s.len(),
    decreases s.len(),
{
    if s.len() > 0 {
        lemma_open_le_total(s.drop_last(), step_mm, m);
    }
}

/// A bucket has a positive total exactly when some place falls in it.
pub proof fn lemma_total_count_positive(s: Seq<Measured>, step_mm: nat, m: nat)
    ensures
        total_count(s, step_mm, m) > 0 <==> exists|i: int|
            0 <= i < s.len() && in_bucket(s[i], step_mm, m),
    decreases s.len(),
{
    if s.len() == 0 {
    } else {
        lemma_total_count_positive(s.drop_last(), step_mm, m);
        if in_bucket(s.last(), step_mm, m) {
            assert(in_bucket(s[s.len() - 1], step_mm, m));
        } else {
            if exists|i: int| 0 <= i < s.drop_last().len() && in_bucket(
                s.drop_last()[i],
                step_mm,
                m,
            ) {
                let i = choose|i: int|
                    0 <= i < s.drop_last().len() && in_bucket(s.drop_last()[i], step_mm, m);
                assert(in_bucket(s[i], step_mm, m));
            }
            if exists|i: int| 0 <= i < s.len() && in_bucket(s[i], step_mm, m) {
                let i = choose|i: int| 0 <= i < s.len() && in_bucket(s[i], step_mm, m);
                assert(i < s.len() - 1);
                assert(in_bucket(s.drop_last()[i], step_mm, m));
            }
        }
    }
}

/// Count the places of one bucket: all of them, and the open ones.
fn count_bucket(entities: &Vec<Measured>, step_km: u64, m: u64) -> (c: (usize, usize))
    requires
        1 <= step_km <= MAX_STEP_KM,
    ensures
        c.0 == total_count(entities@, step_width_mm(step_km), m as nat),
        c.1 == open_count(entities@, step_width_mm(step_km), m as nat),
{
    let mut total_c: usize = 0;
    let mut open_c: usize = 0;
    let n = entities.len();
    let mut j: usize = 0;
    while j < n
        invariant
            n == entities@.len(),
            j <= n,
            1 <= step_km <= MAX_STEP_KM,
            total_c == total_count(entities@.take(j as int), step_width_mm(step_km), m as nat),
            open_c == open_count(entities@.take(j as int), step_width_mm(step_km), m as nat),
            open_c <= total_c <= j,
        decreases n - j,
    {
        proof {
            assert(entities@.take(j + 1).drop_last() =~= entities@.take(j as int));
            assert(entities@.take(j + 1).last() == entities@[j as int]);
        }
        match entities[j].distance_mm {
            Option::Some(d) => {
                let b = bucket_index(d, step_km);
                if b == m {
                    total_c += 1;
                    if entities[j].open_now {
                        open_c += 1;
                    }
                }
            },
            Option::None => {},
        }
        j += 1;
    }
    proof {
        assert(entities@.take(n as int) =~= entities@);
    }
    (total_c, open_c)
}

/// Bin every measured place by its distance bucket and emit one row per
/// bucket, from the nearest populated bucket to the farthest, with no
/// gap in between: a bucket nothing fell in appears with zero counts.
/// Places without a measured distance are skipped; when nothing was
/// measured the table is empty.
pub fn bin_by_distance(entities: &Vec<Measured>, step_km: u64) -> (rows: Vec<BucketRow>)
    requires
        1 <= step_km <= MAX_STEP_KM,
    ensures
        rows@.len() > 0 <==> any_measured(entities@),
        forall|i: int|
            0 <= i < rows@.len() ==> (#[trigger] rows@[i]).index == rows@[0].index + i,
        forall|i: int, j: int|
            0 <= i < j < rows@.len() ==> rows@[i].index < rows@[j].index,
        forall|i: int|
            0 <= i < rows@.len() ==> (#[trigger] rows@[i]).total == total_count(
                entities@,
                step_width_mm(step_km),
                rows@[i].index as nat,
            ),
        forall|i: int|
            0 <= i < rows@.len() ==> (#[trigger] rows@[i]).open_now == open_count(
                entities@,
                step_width_mm(step_km),
                rows@[i].index as nat,
            ),
        forall|i: int|
            0 <= i < rows@.len() ==> (#[trigger] rows@[i]).open_now <= rows@[i].total,
        rows@.len() > 0 ==> rows@[0].total > 0 && rows@[rows@.len() - 1].total > 0,
        forall|m: nat|
            #[trigger] total_count(entities@, step_width_mm(step_km), m) > 0 ==> rows@.len()
                > 0 && rows@[0].index <= m <= rows@[rows@.len() - 1].index,
{
    let n = entities.len();
    let mut found = false;
    let mut min_b: u64 = 1;
    let mut max_b: u64 = 1;
    let mut i: usize = 0;
    while i < n
        invariant
            n == entities@.len(),
            i <= n,
            1 <= step_km <= MAX_STEP_KM,
            found <==> exists|j: int| 0 <= j < i && entities@[j].distance_mm is Some,
            found ==> 1 <= min_b <= max_b,
            found ==> max_b <= 18_446_744_073_710,
            found ==> exists|j: int|
                0 <= j < i && in_bucket(entities@[j], step_width_mm(step_km), min_b as nat),
            found ==> exists|j: int|
                0 <= j < i && in_bucket(entities@[j], step_width_mm(step_km), max_b as nat),
            forall|j: int|
                0 <= j < i && (#[trigger] entities@[j]).distance_mm is Some ==> min_b as nat
                    <= bucket_of(entities@[j], step_width_mm(step_km)) <= max_b as nat,
        decreases n - i,
    {
        match entities[i].distance_mm {
            Option::Some(d) => {
                let b = bucket_index(d, step_km);
                proof {
                    vstd::arithmetic::div_mod::lemma_div_is_ordered(
                        d as int,
                        u64::MAX as int,
                        MM_PER_KM as int,
                    );
                    assert(u64::MAX as int / (MM_PER_KM as int) == 18_446_744_073_709);
                    assert(in_bucket(entities@[i as int], step_width_mm(step_km), b as nat));
                }
                if !found {
                    found = true;
                    min_b = b;
                    max_b = b;
                } else {
                    if b < min_b {
                        min_b = b;
                    }
                    if b > max_b {
                        max_b = b;
                    }
                }
            },
            Option::None => {},
        }
        i += 1;
    }
    if !found {
        proof {
            assert forall|m: nat|
                !(#[trigger] total_count(entities@, step_width_mm(step_km), m) > 0) by {
                lemma_total_count_positive(entities@, step_width_mm(step_km), m);
                if total_count(entities@, step_width_mm(step_km), m) > 0 {
                    let j = choose|j: int|
                        0 <= j < entities@.len() && in_bucket(
                            entities@[j],
                            step_width_mm(step_km),
                            m,
                        );
                    assert(entities@[j].distance_mm is Some);
                }
            }
        }
        return Vec::new();
    }
    let mut rows: Vec<BucketRow> = Vec::new();
    let mut m: u64 = min_b;
    while m <= max_b
        invariant
            1 <= step_km <= MAX_STEP_KM,
            1 <= min_b <= max_b,
            max_b <= 18_446_744_073_710,
            min_b <= m <= max_b + 1,
            rows@.len() == m - min_b,
            forall|k: int|
                0 <= k < rows@.len() ==> (#[trigger] rows@[k]).index == min_b + k,
            forall|k: int|
                0 <= k < rows@.len() ==> (#[trigger] rows@[k]).total == total_count(
                    entities@,
                    step_width_mm(step_km),
                    (min_b + k) as nat,
                ),
            forall|k: int|
                0 <= k < rows@.len() ==> (#[trigger] rows@[k]).open_now == open_count(
                    entities@,
                    step_width_mm(step_km),
                    (min_b + k) as nat,
                ),
            forall|k: int|
                0 <= k < rows@.len() ==> (#[trigger] rows@[k]).open_now <= rows@[k].total,
        decreases max_b + 1 - m,
    {
        let counts = count_bucket(entities, step_km, m);
        proof {
            lemma_open_le_total(entities@, step_width_mm(step_km), m as nat);
        }
        rows.push(BucketRow { index: m, total: counts.0, open_now: counts.1 });
        m += 1;
    }
    proof {
        assert(rows@.len() == max_b + 1 - min_b);
        assert(rows@[0].index == min_b);
        assert(rows@[rows@.len() - 1].index == max_b);
        let ghost sw = step_width_mm(step_km);
        lemma_total_count_positive(entities@, sw, min_b as nat);
        lemma_total_count_positive(entities@, sw, max_b as nat);
        assert(rows@[0].total > 0);
        assert(rows@[rows@.len() - 1].total > 0);
        assert forall|q: nat|
            #[trigger] total_count(entities@, sw, q) > 0 implies rows@.len() > 0
            && rows@[0].index <= q <= rows@[rows@.len() - 1].index by {
            lemma_total_count_positive(entities@, sw, q);
            let j = choose|j: int| 0 <= j < entities@.len() && in_bucket(entities@[j], sw, q);
            assert(entities@[j].distance_mm is Some);
            assert(min_b as nat <= bucket_of(entities@[j], sw) <= max_b as nat);
        }
    }
    rows
}

/// The printable range of a bucket: its lower and upper edge in
/// kilometres. Bucket `m` covers the distances above `(m - 1) * step`
/// up to and including `m * step`.
pub fn bucket_range_km(index: u64, step_km: u64) -> (r: (u64, u64))
    requires
        1 <= index,
        index * step_km <= u64::MAX,
    ensures
        r.0 == (index - 1) * step_km,
        r.1 == index * step_km,
{
    proof {
        assert((index - 1) * step_km <= index * step_km) by (nonlinear_arith)
            requires
                index >= 1,
        ;
    }
    ((index - 1) * step_km, index * step_km)
}

} // verus!
