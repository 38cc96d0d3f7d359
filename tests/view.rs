use brusselator::view::subsample;

fn numbered(len: usize) -> Vec<usize> {
    (0..len).collect()
}

#[test]
fn no_skip_unit_stride_keeps_everything() {
    let p = numbered(1001);
    let r = subsample(&p, Some(0), Some(1));
    assert_eq!(r.len(), 1001);
    assert_eq!(r, p);
    assert_eq!(subsample(&p, None, None), p);
}

#[test]
fn skip_one_stride_two() {
    let p = numbered(1001);
    let r = subsample(&p, Some(1), Some(2));
    assert_eq!(r.len(), 500);
    assert_eq!(r[0], 1);
    assert_eq!(r[1], 3);
    assert_eq!(r[499], 999);
}

#[test]
fn skip_past_the_end_keeps_nothing() {
    let p = numbered(10);
    assert!(subsample(&p, Some(10), None).is_empty());
    assert!(subsample(&p, Some(25), Some(3)).is_empty());
    assert!(subsample(&Vec::<usize>::new(), None, None).is_empty());
}

#[test]
fn length_rounds_up() {
    let p = numbered(10);
    assert_eq!(subsample(&p, Some(3), Some(3)), vec![3, 6, 9]);
    assert_eq!(subsample(&p, Some(2), Some(3)), vec![2, 5, 8]);
    assert_eq!(subsample(&p, None, Some(4)), vec![0, 4, 8]);
    assert_eq!(subsample(&p, Some(9), Some(100)), vec![9]);
}

#[test]
fn view_of_float_pairs() {
    let p = vec![(0.0f64, 1.0f64), (2.0, 3.0), (4.0, 5.0)];
    assert_eq!(subsample(&p, Some(1), None), vec![(2.0, 3.0), (4.0, 5.0)]);
}
