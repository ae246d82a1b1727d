use dither_core::kernel::cluster_weights_shape;
use dither_core::kernel::hvs_filter_shape;
use dither_core::kernel::Kernel;
use dither_core::kernel::DEFAULT_CLUSTER_RADIUS;
use dither_core::kernel::DEFAULT_HVS_FILTER_SIZE;
use dither_core::kernel::MAX_KERNEL_TOTAL;

#[test]
fn kernel_needs_an_odd_side() {
    assert!(Kernel::new(2, vec![1, 1, 1, 1]).is_none());
    assert!(Kernel::new(0, vec![]).is_none());
    assert!(Kernel::new(1, vec![7]).is_some());
}

#[test]
fn kernel_needs_one_weight_per_tap() {
    assert!(Kernel::new(3, vec![1; 8]).is_none());
    assert!(Kernel::new(3, vec![1; 10]).is_none());
    assert!(Kernel::new(3, vec![1; 9]).is_some());
}

#[test]
fn kernel_total_is_limited() {
    assert_eq!(MAX_KERNEL_TOTAL, 1 << 20);
    let mut weights = vec![0u32; 9];
    weights[4] = 1 << 20;
    assert!(Kernel::new(3, weights.clone()).is_some());
    weights[8] = 1;
    assert!(Kernel::new(3, weights.clone()).is_none());
    weights[8] = u32::MAX;
    weights[0] = u32::MAX;
    assert!(Kernel::new(3, weights).is_none());
}

#[test]
fn kernel_records_radius_and_total() {
    let kernel = Kernel::new(5, (0..25).collect()).unwrap();
    assert_eq!(kernel.radius, 2);
    assert_eq!(kernel.side_len(), 5);
    assert_eq!(kernel.total, 300);
    assert_eq!(kernel.weight_of(0, 0), 0);
    assert_eq!(kernel.weight_of(4, 0), 4);
    assert_eq!(kernel.weight_of(0, 1), 5);
    assert_eq!(kernel.weight_of(4, 4), 24);
}

#[test]
fn kernel_of_zeros_is_accepted() {
    let kernel = Kernel::new(3, vec![0; 9]).unwrap();
    assert_eq!(kernel.total, 0);
}

#[test]
fn hvs_shape_takes_odd_sizes_as_they_are() {
    let shape = hvs_filter_shape(7);
    assert_eq!((shape.side, shape.radius), (7, 3));
    assert_eq!((shape.sigma_num, shape.sigma_den), (2, 5));
    let shape = hvs_filter_shape(1);
    assert_eq!((shape.side, shape.radius), (1, 0));
}

#[test]
fn hvs_shape_falls_back_on_three_by_three() {
    for size in [0usize, 2, 4, 8, 100] {
        let shape = hvs_filter_shape(size);
        assert_eq!((shape.side, shape.radius), (3, 1));
        assert_eq!((shape.sigma_num, shape.sigma_den), (1, 2));
    }
}

#[test]
fn hvs_exponent_is_distance_over_twice_sigma_squared() {
    // Radius 3, sigma 1.2: the corner lies at squared distance 18, and
    // 18 / (2 * 1.44) is 450 / 72.
    let shape = hvs_filter_shape(7);
    assert_eq!(shape.exponent(0, 0), (450, 72));
    assert_eq!(shape.exponent(3, 3), (0, 72));
    assert_eq!(shape.exponent(4, 3), (25, 72));
    assert_eq!(shape.exponent(6, 5), (13 * 25, 72));
    // Fallback: radius 1, sigma 0.5.
    let shape = hvs_filter_shape(4);
    assert_eq!(shape.exponent(0, 0), (8, 2));
    assert_eq!(shape.exponent(1, 0), (4, 2));
}

#[test]
fn a_window_of_one_tap_has_exponent_zero() {
    let shape = hvs_filter_shape(1);
    assert_eq!((shape.side, shape.radius), (1, 0));
    assert_eq!(shape.exponent(0, 0), (0, 1));
    let shape = cluster_weights_shape(0);
    assert_eq!(shape.exponent(0, 0), (0, 1));
}

#[test]
fn cluster_shape_has_sigma_of_the_radius() {
    let shape = cluster_weights_shape(2);
    assert_eq!((shape.side, shape.radius), (5, 2));
    assert_eq!((shape.sigma_num, shape.sigma_den), (1, 1));
    // Squared distance 5 over twice the variance of 4.
    assert_eq!(shape.exponent(0, 1), (5, 8));
    assert_eq!(shape.exponent(2, 2), (0, 8));
}

#[test]
fn default_windows() {
    assert_eq!(DEFAULT_HVS_FILTER_SIZE, 7);
    assert_eq!(DEFAULT_CLUSTER_RADIUS, 2);
    let shape = hvs_filter_shape(DEFAULT_HVS_FILTER_SIZE);
    assert_eq!(shape.side, 7);
    let shape = cluster_weights_shape(DEFAULT_CLUSTER_RADIUS);
    assert_eq!(shape.side, 5);
}
