use categorize_poi::binner::bin_by_distance;
use categorize_poi::binner::bucket_range_km;
use categorize_poi::binner::Measured;
use categorize_poi::bucket::bucket_index;

fn measured(distance_mm: u64, open_now: bool) -> Measured {
    Measured { distance_mm: Some(distance_mm), open_now }
}

#[test]
fn boundary_with_step_two() {
    // 2.0 km exactly stays in bucket 1; the smallest representable
    // excess moves to bucket 2.
    assert_eq!(bucket_index(2_000_000, 2), 1);
    assert_eq!(bucket_index(2_000_100, 2), 2);
    assert_eq!(bucket_index(0, 2), 1);
    assert_eq!(bucket_index(1, 2), 1);
    assert_eq!(bucket_index(4_000_000, 2), 2);
    assert_eq!(bucket_index(4_000_001, 2), 3);
}

#[test]
fn bucket_monotone_in_distance() {
    let step = 3;
    let distances: Vec<u64> =
        vec![0, 1, 2_999_999, 3_000_000, 3_000_001, 5_000_000, 6_000_000, 12_345_678];
    let mut prev = bucket_index(0, step);
    for d in distances {
        let b = bucket_index(d, step);
        assert!(prev <= b);
        prev = b;
    }
}

#[test]
fn range_labels() {
    assert_eq!(bucket_range_km(1, 2), (0, 2));
    assert_eq!(bucket_range_km(2, 2), (2, 4));
    assert_eq!(bucket_range_km(3, 5), (10, 15));
}

#[test]
fn scenario_three_places() {
    // Places at 0.5 km (open), 1.9 km (closed) and 3.0 km (open) from
    // the origin, step size 2 km.
    let entities = vec![
        measured(500_000, true),
        measured(1_900_000, false),
        measured(3_000_000, true),
    ];
    let rows = bin_by_distance(&entities, 2);
    assert_eq!(rows.len(), 2);
    assert_eq!(rows[0].index, 1);
    assert_eq!(rows[0].total, 2);
    assert_eq!(rows[0].open_now, 1);
    assert_eq!(rows[1].index, 2);
    assert_eq!(rows[1].total, 1);
    assert_eq!(rows[1].open_now, 1);
    // The printed rows are "0-2 ... 2 ... 1" and "2-4 ... 1 ... 1".
    assert_eq!(bucket_range_km(rows[0].index, 2), (0, 2));
    assert_eq!(bucket_range_km(rows[1].index, 2), (2, 4));
}

#[test]
fn gap_filling() {
    // Places populating only buckets 1 and 4: the table still shows
    // buckets 2 and 3, with zero counts.
    let entities = vec![measured(1_000_000, false), measured(7_000_000, true)];
    let rows = bin_by_distance(&entities, 2);
    let idx: Vec<u64> = rows.iter().map(|r| r.index).collect();
    assert_eq!(idx, vec![1, 2, 3, 4]);
    assert_eq!(rows[0].total, 1);
    assert_eq!(rows[0].open_now, 0);
    assert_eq!(rows[1].total, 0);
    assert_eq!(rows[1].open_now, 0);
    assert_eq!(rows[2].total, 0);
    assert_eq!(rows[2].open_now, 0);
    assert_eq!(rows[3].total, 1);
    assert_eq!(rows[3].open_now, 1);
}

#[test]
fn open_never_exceeds_total() {
    let entities = vec![
        measured(100, true),
        measured(200, true),
        measured(2_500_000, false),
        measured(9_000_000, true),
        Measured { distance_mm: None, open_now: true },
    ];
    let rows = bin_by_distance(&entities, 2);
    assert!(!rows.is_empty());
    for row in &rows {
        assert!(row.open_now <= row.total);
    }
}

#[test]
fn ordering_strictly_ascending() {
    let entities = vec![
        measured(9_000_000, false),
        measured(100, true),
        measured(4_100_000, true),
        measured(150, false),
    ];
    let rows = bin_by_distance(&entities, 2);
    for w in rows.windows(2) {
        assert!(w[0].index < w[1].index);
    }
}

#[test]
fn failed_distances_are_skipped() {
    let only_failed = vec![Measured { distance_mm: None, open_now: true }];
    assert!(bin_by_distance(&only_failed, 2).is_empty());

    let mixed = vec![
        Measured { distance_mm: None, open_now: true },
        measured(500, false),
    ];
    let rows = bin_by_distance(&mixed, 2);
    assert_eq!(rows.len(), 1);
    assert_eq!(rows[0].index, 1);
    assert_eq!(rows[0].total, 1);
    assert_eq!(rows[0].open_now, 0);
}

#[test]
fn no_places_no_rows() {
    let rows = bin_by_distance(&Vec::new(), 2);
    assert!(rows.is_empty());
}
