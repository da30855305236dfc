use zktx::amount::{in_range, magnitude_of, signed_ge};

#[test]
fn magnitude_joins_the_two_words() {
    assert_eq!(magnitude_of([0, 0]), 0);
    assert_eq!(magnitude_of([7, 0]), 7);
    assert_eq!(magnitude_of([0, 1]), 1u128 << 64);
    assert_eq!(magnitude_of([u64::MAX, u64::MAX]), u128::MAX);
}

#[test]
fn order_of_equal_signs() {
    assert!(signed_ge(([20, 0], true), ([10, 0], true)));
    assert!(!signed_ge(([10, 0], true), ([20, 0], true)));
    assert!(signed_ge(([10, 0], false), ([20, 0], false)));
    assert!(!signed_ge(([20, 0], false), ([10, 0], false)));
    assert!(signed_ge(([0, 1], true), ([u64::MAX, 0], true)));
}

#[test]
fn order_of_opposite_signs() {
    assert!(signed_ge(([1, 0], true), ([1, 0], false)));
    assert!(!signed_ge(([1, 0], false), ([1, 0], true)));
    assert!(signed_ge(([0, 0], true), ([u64::MAX, u64::MAX], false)));
}

#[test]
fn zero_is_zero_under_either_flag() {
    assert!(signed_ge(([0, 0], false), ([0, 0], true)));
    assert!(signed_ge(([0, 0], true), ([0, 0], false)));
    assert!(in_range(([0, 0], true), ([0, 0], false), ([0, 0], true)));
}

#[test]
fn bounds_are_inclusive() {
    assert!(in_range(([20, 0], true), ([20, 0], true), ([5, 0], true)));
    assert!(in_range(([20, 0], true), ([5, 0], true), ([5, 0], true)));
    assert!(!in_range(([20, 0], true), ([21, 0], true), ([5, 0], true)));
    assert!(!in_range(([20, 0], true), ([4, 0], true), ([5, 0], true)));
    assert!(in_range(([5, 0], false), ([5, 0], false), ([9, 0], false)));
    assert!(!in_range(([5, 0], false), ([4, 0], false), ([9, 0], false)));
    assert!(!in_range(([5, 0], false), ([10, 0], false), ([9, 0], false)));
}

#[test]
fn table_of_the_order() {
    let up: [([u64; 2], bool); 12] = [
        ([20, 0], true), ([20, 0], true), ([20, 0], true), ([10, 0], false),
        ([20, 0], true), ([20, 0], true), ([20, 0], true), ([20, 0], true),
        ([20, 0], true), ([10, 0], false), ([10, 0], false), ([10, 0], false),
    ];
    let va: [([u64; 2], bool); 12] = [
        ([10, 0], true), ([10, 0], true), ([10, 0], false), ([15, 0], false),
        ([30, 0], true), ([5, 0], true), ([5, 0], false), ([15, 0], false),
        ([25, 0], true), ([25, 0], false), ([5, 0], false), ([5, 0], true),
    ];
    let low: [([u64; 2], bool); 12] = [
        ([5, 0], true), ([5, 0], false), ([20, 0], false), ([20, 0], false),
        ([10, 0], true), ([10, 0], true), ([10, 0], true), ([5, 0], false),
        ([5, 0], false), ([20, 0], false), ([20, 0], false), ([20, 0], false),
    ];
    let expected: [bool; 12] = [
        true, true, true, true, false, false, false, false, false, false, false, false,
    ];
    for i in 0..12 {
        assert_eq!(in_range(up[i], va[i], low[i]), expected[i], "row {}", i);
    }
}
