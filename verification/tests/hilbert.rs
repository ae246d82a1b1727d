use dither_core::hilbert::curve_fits;
use dither_core::hilbert::generate_hilbert_curve;
use dither_core::hilbert::hilbert_curve_recursive;

#[test]
fn hilbert_order_zero_is_the_origin() {
    assert_eq!(generate_hilbert_curve(0), vec![(0, 0)]);
}

#[test]
fn hilbert_order_one_walks_the_square() {
    assert_eq!(generate_hilbert_curve(1), vec![(0, 0), (0, 1), (1, 1), (1, 0)]);
}

#[test]
fn hilbert_order_two_first_three_quadrants() {
    let points = generate_hilbert_curve(2);
    assert_eq!(points.len(), 16);
    assert_eq!(
        &points[..12],
        &[
            (0, 0),
            (1, 0),
            (1, 1),
            (0, 1),
            (0, 2),
            (0, 3),
            (1, 3),
            (1, 2),
            (2, 2),
            (2, 3),
            (3, 3),
            (3, 2)
        ]
    );
}

#[test]
fn hilbert_order_two_last_quadrant_wraps() {
    let points = generate_hilbert_curve(2);
    assert_eq!(points[12], (2, 0));
    assert_eq!(points[13], (1, 0));
    assert_eq!(points[14], (1, usize::MAX));
    assert_eq!(points[15], (2, usize::MAX));
}

#[test]
fn hilbert_recursive_writes_only_its_window() {
    let mut points = vec![(7usize, 7usize); 6];
    let next = hilbert_curve_recursive(&mut points, 1, 10, 20, 0, 1, 1, 0, 1);
    assert_eq!(next, 5);
    assert_eq!(points, vec![(7, 7), (10, 20), (11, 20), (11, 21), (10, 21), (7, 7)]);
}

#[test]
fn hilbert_length_is_four_to_the_order() {
    let mut expected = 1usize;
    for order in 0..6u32 {
        assert_eq!(generate_hilbert_curve(order).len(), expected);
        expected *= 4;
    }
}

#[test]
fn hilbert_orders_that_fit_a_word() {
    let last = usize::BITS / 2 - 1;
    for order in 0..=last {
        assert!(curve_fits(order));
    }
    assert!(!curve_fits(last + 1));
    assert!(!curve_fits(u32::MAX));
}

#[test]
fn hilbert_recursive_takes_any_frame() {
    // A frame of doubled unit vectors spreads the four cells two apart.
    let mut points = vec![(0usize, 0usize); 4];
    let next = hilbert_curve_recursive(&mut points, 0, 5, 7, 2, 0, 0, 2, 1);
    assert_eq!(next, 4);
    assert_eq!(points, vec![(5, 7), (5, 9), (7, 9), (7, 7)]);
    // The extreme values wrap round the word instead of failing.
    let mut points = vec![(0usize, 0usize); 4];
    hilbert_curve_recursive(&mut points, 0, 0, 0, isize::MIN, isize::MAX, isize::MIN, isize::MAX, 1);
    let top = isize::MAX as usize;
    let low = isize::MIN as usize;
    assert_eq!(points[0], (0, 0));
    assert_eq!(points[1], (top, top));
    assert_eq!(points[2], (usize::MAX, top.wrapping_add(top)));
    assert_eq!(points[3], (top, top.wrapping_add(top).wrapping_sub(low)));
}
