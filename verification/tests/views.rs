use rc_slice::{ArcBytes, ArcSlice, RcBytes, RcSlice};

#[test]
fn from_vec_spans_whole_sequence() {
    let v = RcSlice::from_vec(vec![1u32, 2, 3]);
    assert_eq!(RcSlice::bounds(&v), (0, 3));
    assert_eq!(RcSlice::len(&v), 3);
    assert_eq!(RcSlice::as_slice(&v), &[1u32, 2, 3][..]);
}

#[test]
fn from_empty_vec() {
    let v = RcSlice::from_vec(Vec::<u8>::new());
    assert_eq!(RcSlice::bounds(&v), (0, 0));
    assert_eq!(RcSlice::len(&v), 0);
    assert_eq!(RcSlice::as_slice(&v), &[][..]);
}

#[test]
fn advance_returns_cut_prefix() {
    let mut v = RcSlice::from_vec(vec![10u8, 20, 30, 40, 50]);
    let shed = RcSlice::advance(&mut v, 2).unwrap();
    assert_eq!(shed, &[10u8, 20][..]);
    assert_eq!(RcSlice::bounds(&v), (2, 5));
    assert_eq!(RcSlice::as_slice(&v), &[30u8, 40, 50][..]);
}

#[test]
fn advance_by_zero_and_by_whole_window() {
    let mut v = RcSlice::from_vec(vec![1i32, 2]);
    let shed = RcSlice::advance(&mut v, 0).unwrap();
    assert_eq!(shed, &[][..]);
    assert_eq!(RcSlice::bounds(&v), (0, 2));
    let shed = RcSlice::advance(&mut v, 2).unwrap();
    assert_eq!(shed, &[1i32, 2][..]);
    assert_eq!(RcSlice::bounds(&v), (2, 2));
    assert_eq!(RcSlice::len(&v), 0);
}

#[test]
fn advance_past_end_leaves_view_unchanged() {
    let mut v = RcSlice::from_vec(vec![1u8, 2, 3]);
    assert!(RcSlice::advance(&mut v, 4).is_none());
    assert_eq!(RcSlice::bounds(&v), (0, 3));
    assert_eq!(RcSlice::as_slice(&v), &[1u8, 2, 3][..]);
}

#[test]
fn advance_overflowing_increment_fails() {
    let mut v = RcSlice::from_vec(vec![1u8, 2, 3]);
    RcSlice::advance(&mut v, 1).unwrap();
    assert!(RcSlice::advance(&mut v, usize::MAX).is_none());
    assert_eq!(RcSlice::bounds(&v), (1, 3));
}

#[test]
fn retract_returns_cut_suffix() {
    let mut v = RcSlice::from_vec(vec![10u8, 20, 30, 40, 50]);
    let shed = RcSlice::retract(&mut v, 2).unwrap();
    assert_eq!(shed, &[40u8, 50][..]);
    assert_eq!(RcSlice::bounds(&v), (0, 3));
    assert_eq!(RcSlice::as_slice(&v), &[10u8, 20, 30][..]);
}

#[test]
fn retract_past_start_leaves_view_unchanged() {
    let mut v = RcSlice::from_vec(vec![1u8, 2, 3]);
    RcSlice::advance(&mut v, 1).unwrap();
    assert!(RcSlice::retract(&mut v, 3).is_none());
    assert_eq!(RcSlice::bounds(&v), (1, 3));
    assert!(RcSlice::retract(&mut v, usize::MAX).is_none());
    assert_eq!(RcSlice::bounds(&v), (1, 3));
}

#[test]
fn split_off_before_returns_front_keeps_back() {
    let mut v = RcSlice::from_vec(vec![10u8, 20, 30, 40, 50]);
    let front = RcSlice::split_off_before(&mut v, 2).unwrap();
    assert_eq!(RcSlice::bounds(&front), (0, 2));
    assert_eq!(RcSlice::as_slice(&front), &[10u8, 20][..]);
    assert_eq!(RcSlice::bounds(&v), (2, 5));
    assert_eq!(RcSlice::as_slice(&v), &[30u8, 40, 50][..]);
    // the two parts cover the original window and are disjoint
    let mut all = RcSlice::as_slice(&front).to_vec();
    all.extend_from_slice(RcSlice::as_slice(&v));
    assert_eq!(all, vec![10u8, 20, 30, 40, 50]);
}

#[test]
fn split_off_before_out_of_range_fails() {
    let mut v = RcSlice::from_vec(vec![1u8, 2, 3]);
    assert!(RcSlice::split_off_before(&mut v, 4).is_none());
    assert_eq!(RcSlice::bounds(&v), (0, 3));
}

#[test]
fn split_off_after_returns_back_keeps_front() {
    let mut v = RcSlice::from_vec(vec![10u8, 20, 30, 40, 50]);
    let back = RcSlice::split_off_after(&mut v, 2).unwrap();
    assert_eq!(RcSlice::bounds(&v), (0, 2));
    assert_eq!(RcSlice::as_slice(&v), &[10u8, 20][..]);
    assert_eq!(RcSlice::bounds(&back), (2, 5));
    assert_eq!(RcSlice::as_slice(&back), &[30u8, 40, 50][..]);
}

#[test]
fn split_off_after_out_of_range_fails() {
    let mut v = RcSlice::from_vec(vec![1u8, 2, 3]);
    assert!(RcSlice::split_off_after(&mut v, 4).is_none());
    assert_eq!(RcSlice::bounds(&v), (0, 3));
}

#[test]
fn clone_has_same_content_and_bounds() {
    let mut v = RcSlice::from_vec(vec![5u8, 6, 7, 8]);
    RcSlice::advance(&mut v, 1).unwrap();
    let c = v.clone();
    assert_eq!(RcSlice::bounds(&c), RcSlice::bounds(&v));
    assert_eq!(RcSlice::as_slice(&c), RcSlice::as_slice(&v));
}

#[test]
fn mutating_clone_leaves_original_untouched() {
    let v = RcSlice::from_vec(vec![5u8, 6, 7, 8]);
    let mut c = v.clone();
    RcSlice::advance(&mut c, 2).unwrap();
    RcSlice::retract(&mut c, 1).unwrap();
    assert_eq!(RcSlice::bounds(&c), (2, 3));
    assert_eq!(RcSlice::bounds(&v), (0, 4));
    assert_eq!(RcSlice::as_slice(&v), &[5u8, 6, 7, 8][..]);
}

#[test]
fn equality_across_backing_allocations() {
    let a = RcSlice::from_vec(vec![1u8, 2, 3]);
    let b = RcSlice::from_vec(vec![1u8, 2, 3]);
    assert!(a == b);
    let c = RcSlice::from_vec(vec![1u8, 2, 4]);
    assert!(a != c);
    let d = RcSlice::from_vec(vec![1u8, 2]);
    assert!(a != d);
}

#[test]
fn equality_between_different_windows_with_same_content() {
    // [2, 3] seen through two different windows of two different backings
    let mut a = RcSlice::from_vec(vec![1u8, 2, 3]);
    RcSlice::advance(&mut a, 1).unwrap();
    let mut b = RcSlice::from_vec(vec![2u8, 3, 9]);
    RcSlice::retract(&mut b, 1).unwrap();
    assert_eq!(RcSlice::bounds(&a), (1, 3));
    assert_eq!(RcSlice::bounds(&b), (0, 2));
    assert!(a == b);
}

#[test]
fn equality_within_one_backing_allocation() {
    // backing [7, 7]: the one-element windows [0,1) and [1,2) show the same
    // content and so compare equal although their bounds differ
    let mut a = RcSlice::from_vec(vec![7u8, 7]);
    let front = RcSlice::split_off_before(&mut a, 1).unwrap();
    assert_eq!(RcSlice::bounds(&front), (0, 1));
    assert_eq!(RcSlice::bounds(&a), (1, 2));
    assert!(front == a);
}

#[test]
fn example_scenario_rc() {
    let mut v = RcSlice::from_vec(vec![10u8, 20, 30, 40, 50]);
    assert_eq!(RcSlice::bounds(&v), (0, 5));

    let f = RcSlice::split_off_before(&mut v, 2).unwrap();
    assert_eq!(RcSlice::as_slice(&f), &[10u8, 20][..]);
    assert_eq!(RcSlice::bounds(&f), (0, 2));
    assert_eq!(RcSlice::as_slice(&v), &[30u8, 40, 50][..]);
    assert_eq!(RcSlice::bounds(&v), (2, 5));

    let shed = RcSlice::advance(&mut v, 1).unwrap();
    assert_eq!(shed, &[30u8][..]);
    assert_eq!(RcSlice::as_slice(&v), &[40u8, 50][..]);
    assert_eq!(RcSlice::bounds(&v), (3, 5));

    let shed = RcSlice::retract(&mut v, 1).unwrap();
    assert_eq!(shed, &[50u8][..]);
    assert_eq!(RcSlice::as_slice(&v), &[40u8][..]);
    assert_eq!(RcSlice::bounds(&v), (3, 4));

    assert!(RcSlice::advance(&mut v, 5).is_none());
    assert_eq!(RcSlice::as_slice(&v), &[40u8][..]);
    assert_eq!(RcSlice::bounds(&v), (3, 4));
}

#[test]
fn example_scenario_arc() {
    let mut v = ArcSlice::from_vec(vec![10u8, 20, 30, 40, 50]);
    assert_eq!(ArcSlice::bounds(&v), (0, 5));

    let f = ArcSlice::split_off_before(&mut v, 2).unwrap();
    assert_eq!(ArcSlice::as_slice(&f), &[10u8, 20][..]);
    assert_eq!(ArcSlice::bounds(&f), (0, 2));
    assert_eq!(ArcSlice::as_slice(&v), &[30u8, 40, 50][..]);
    assert_eq!(ArcSlice::bounds(&v), (2, 5));

    let shed = ArcSlice::advance(&mut v, 1).unwrap();
    assert_eq!(shed, &[30u8][..]);
    assert_eq!(ArcSlice::bounds(&v), (3, 5));

    let shed = ArcSlice::retract(&mut v, 1).unwrap();
    assert_eq!(shed, &[50u8][..]);
    assert_eq!(ArcSlice::as_slice(&v), &[40u8][..]);
    assert_eq!(ArcSlice::bounds(&v), (3, 4));

    assert!(ArcSlice::advance(&mut v, 5).is_none());
    assert_eq!(ArcSlice::bounds(&v), (3, 4));
}

#[test]
fn arc_split_parts_are_independent() {
    let mut v = ArcSlice::from_vec(vec![1u64, 2, 3, 4]);
    let mut back = ArcSlice::split_off_after(&mut v, 2).unwrap();
    assert_eq!(ArcSlice::as_slice(&v), &[1u64, 2][..]);
    assert_eq!(ArcSlice::as_slice(&back), &[3u64, 4][..]);
    ArcSlice::advance(&mut back, 1).unwrap();
    assert_eq!(ArcSlice::as_slice(&back), &[4u64][..]);
    assert_eq!(ArcSlice::bounds(&v), (0, 2));
}

#[test]
fn arc_failure_cases_leave_state_untouched() {
    let mut v = ArcSlice::from_vec(vec![9i16, 8, 7]);
    assert!(ArcSlice::advance(&mut v, 4).is_none());
    assert!(ArcSlice::retract(&mut v, 4).is_none());
    assert!(ArcSlice::split_off_before(&mut v, 4).is_none());
    assert!(ArcSlice::split_off_after(&mut v, 4).is_none());
    assert_eq!(ArcSlice::bounds(&v), (0, 3));
    assert_eq!(ArcSlice::as_slice(&v), &[9i16, 8, 7][..]);
}

#[test]
fn arc_equality_across_backing_allocations() {
    let a = ArcSlice::from_vec(vec![1u8, 2, 3]);
    let b = ArcSlice::from_vec(vec![1u8, 2, 3]);
    assert!(a == b);
    let c = a.clone();
    assert!(a == c);
    let d = ArcSlice::from_vec(vec![1u8, 2]);
    assert!(a != d);
}

#[test]
fn ordering_is_lexicographic_by_content() {
    let a = RcSlice::from_vec(vec![1u8, 2]);
    let b = RcSlice::from_vec(vec![1u8, 3]);
    assert!(a < b);
    assert!(b > a);
    // a strict prefix comes first
    let c = RcSlice::from_vec(vec![1u8, 2, 0]);
    assert!(a < c);
    let d = RcSlice::from_vec(vec![1u8, 2]);
    assert!(a.partial_cmp(&d) == Some(std::cmp::Ordering::Equal));
    let e = RcSlice::from_vec(Vec::<u8>::new());
    assert!(e < a);
}

#[test]
fn ordering_ignores_backing_and_bounds() {
    let mut a = RcSlice::from_vec(vec![9u8, 1, 2]);
    RcSlice::advance(&mut a, 1).unwrap();
    let b = RcSlice::from_vec(vec![1u8, 2, 3]);
    assert!(a < b);
    let mut c = ArcSlice::from_vec(vec![5u64, 7, 9]);
    ArcSlice::retract(&mut c, 1).unwrap();
    let d = ArcSlice::from_vec(vec![5u64, 8]);
    assert!(c < d);
}

#[test]
fn byte_aliases_name_the_same_types() {
    let mut r: RcBytes = RcSlice::from_vec(vec![0xAAu8, 0xBB, 0xCC]);
    let shed = RcSlice::advance(&mut r, 1).unwrap();
    assert_eq!(shed, &[0xAAu8][..]);
    let a: ArcBytes = ArcSlice::from_vec(vec![0xAAu8, 0xBB]);
    assert_eq!(ArcSlice::as_slice(&a), &[0xAAu8, 0xBB][..]);
}
