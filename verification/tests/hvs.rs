use dither_core::hvs::calculate_initial_error_metrics;
use dither_core::hvs::calculate_toggle_error_change;
use dither_core::hvs::filtered_at;
use dither_core::hvs::source_coordinate;
use dither_core::hvs::update_error_metrics_after_toggle;
use dither_core::hvs::window_end_of;
use dither_core::hvs::window_start_of;
use dither_core::kernel::hvs_filter_shape;
use dither_core::kernel::Kernel;
use dither_core::random::RandomSource;

fn hvs_kernel(size: usize) -> Kernel {
    let shape = hvs_filter_shape(size);
    let mut weights = Vec::new();
    for fy in 0..shape.side {
        for fx in 0..shape.side {
            let (num, den) = shape.exponent(fx, fy);
            weights.push((-(num as f64) / (den as f64)).exp());
        }
    }
    let sum: f64 = weights.iter().sum();
    let quantised = weights.iter().map(|w| (w / sum * 1_048_576.0).floor() as u32).collect();
    Kernel::new(shape.side, quantised).unwrap()
}

fn ones(side: usize) -> Kernel {
    Kernel::new(side, vec![1; side * side]).unwrap()
}

#[test]
fn a_set_pixel_is_seen_through_the_tap_that_lies_over_it() {
    let kernel = Kernel::new(3, (1..=9).collect()).unwrap();
    let mut pattern = vec![false; 9];
    pattern[0] = true;
    // Seen from (1, 1), the pixel (0, 0) lies under the tap (2, 2).
    assert_eq!(filtered_at(&pattern, 3, 3, &kernel, 1, 1), 255 * 9);
    assert_eq!(filtered_at(&pattern, 3, 3, &kernel, 0, 0), 255 * 5);
    assert_eq!(filtered_at(&pattern, 3, 3, &kernel, 1, 0), 255 * 6);
    assert_eq!(filtered_at(&pattern, 3, 3, &kernel, 0, 1), 255 * 8);
    // Out of the footprint.
    assert_eq!(filtered_at(&pattern, 3, 3, &kernel, 2, 2), 0);
}

#[test]
fn the_window_is_clipped_at_the_edges_without_wrapping() {
    let kernel = ones(3);
    let pattern = vec![true; 16];
    assert_eq!(filtered_at(&pattern, 4, 4, &kernel, 0, 0), 255 * 4);
    assert_eq!(filtered_at(&pattern, 4, 4, &kernel, 1, 0), 255 * 6);
    assert_eq!(filtered_at(&pattern, 4, 4, &kernel, 1, 1), 255 * 9);
    assert_eq!(filtered_at(&pattern, 4, 4, &kernel, 3, 3), 255 * 4);
    assert_eq!(window_start_of(0, 3), 0);
    assert_eq!(window_start_of(5, 3), 2);
    assert_eq!(window_end_of(5, 3, 7), 7);
    assert_eq!(window_end_of(2, 3, 7), 6);
    assert_eq!(source_coordinate(0, 2, 1, 4), None);
    assert_eq!(source_coordinate(0, 0, 1, 4), Some(1));
    assert_eq!(source_coordinate(3, 0, 1, 4), None);
    assert_eq!(source_coordinate(3, 2, 1, 4), Some(2));
}

#[test]
fn initial_error_sums_the_squared_differences() {
    let kernel = ones(3);
    let target = vec![0u8; 9];
    let mut pattern = vec![false; 9];
    let metrics = calculate_initial_error_metrics(&target, &pattern, 3, 3, &kernel);
    assert_eq!(metrics.total_error, 0);
    assert_eq!(metrics.filtered_output, vec![0; 9]);
    pattern[4] = true;
    let metrics = calculate_initial_error_metrics(&target, &pattern, 3, 3, &kernel);
    assert_eq!(metrics.filtered_output, vec![255; 9]);
    assert_eq!(metrics.total_error, 9 * 255 * 255);
}

#[test]
fn error_is_measured_in_units_of_the_kernel_total() {
    // One tap of weight 4: the scale is 4, a set pixel is seen as 255 * 4.
    let mut weights = vec![0; 9];
    weights[4] = 4;
    let kernel = Kernel::new(3, weights).unwrap();
    let target = vec![255u8, 100];
    let metrics = calculate_initial_error_metrics(&target, &vec![true, true], 2, 1, &kernel);
    assert_eq!(metrics.filtered_output, vec![1020, 1020]);
    assert_eq!(metrics.total_error, (4 * 155) * (4 * 155));
    let metrics = calculate_initial_error_metrics(&target, &vec![false, false], 2, 1, &kernel);
    assert_eq!(metrics.total_error, (4 * 255) * (4 * 255) + (4 * 100) * (4 * 100));
}

#[test]
fn a_kernel_of_zeros_sees_nothing() {
    let kernel = Kernel::new(3, vec![0; 9]).unwrap();
    let target = vec![10u8, 20, 30, 40];
    let pattern = vec![true, false, true, false];
    let metrics = calculate_initial_error_metrics(&target, &pattern, 2, 2, &kernel);
    assert_eq!(metrics.filtered_output, vec![0; 4]);
    assert_eq!(metrics.total_error, 100 + 400 + 900 + 1600);
    assert_eq!(calculate_toggle_error_change(&target, &pattern, 1, 1, 2, 2, &kernel, &metrics), 0);
}

#[test]
fn toggle_delta_follows_the_formula() {
    let kernel = ones(3);
    let target = vec![0u8; 9];
    let pattern = vec![false; 9];
    let metrics = calculate_initial_error_metrics(&target, &pattern, 3, 3, &kernel);
    // Error 0 everywhere: setting the centre adds 255^2 at each of 9 pixels.
    assert_eq!(
        calculate_toggle_error_change(&target, &pattern, 1, 1, 3, 3, &kernel, &metrics),
        9 * 255 * 255
    );
    // Setting a corner reaches only 4 pixels.
    assert_eq!(
        calculate_toggle_error_change(&target, &pattern, 0, 0, 3, 3, &kernel, &metrics),
        4 * 255 * 255
    );
    // With a white target the error at each pixel is 9 * 255, and setting
    // the centre changes each by -2 * e * b + b * b with b = 255.
    let target = vec![255u8; 9];
    let metrics = calculate_initial_error_metrics(&target, &pattern, 3, 3, &kernel);
    let e = 9 * 255i128;
    assert_eq!(
        calculate_toggle_error_change(&target, &pattern, 1, 1, 3, 3, &kernel, &metrics),
        9 * (-2 * e * 255 + 255 * 255)
    );
}

#[test]
fn toggle_delta_equals_the_difference_from_scratch() {
    let kernel = hvs_kernel(7);
    let mut rng = RandomSource::from_seed(2024);
    for round in 0..40 {
        let width = 1 + rng.next_below(12);
        let height = 1 + rng.next_below(12);
        let target: Vec<u8> = (0..width * height).map(|_| rng.next_below(256) as u8).collect();
        let pattern: Vec<bool> = (0..width * height).map(|_| rng.next_below(2) == 1).collect();
        let x = rng.next_below(width);
        let y = rng.next_below(height);
        let before = calculate_initial_error_metrics(&target, &pattern, width, height, &kernel);
        let delta =
            calculate_toggle_error_change(&target, &pattern, x, y, width, height, &kernel, &before);
        let mut after_pattern = pattern.clone();
        after_pattern[y * width + x] = !pattern[y * width + x];
        let after = calculate_initial_error_metrics(&target, &after_pattern, width, height, &kernel);
        assert_eq!(
            delta,
            after.total_error as i128 - before.total_error as i128,
            "round {}",
            round
        );
    }
}

#[test]
fn updated_metrics_equal_metrics_from_scratch() {
    let kernel = hvs_kernel(5);
    let mut rng = RandomSource::from_seed(77);
    let (width, height) = (9, 6);
    let target: Vec<u8> = (0..width * height).map(|_| rng.next_below(256) as u8).collect();
    let mut pattern: Vec<bool> = target.iter().map(|&s| s >= 128).collect();
    let mut metrics = calculate_initial_error_metrics(&target, &pattern, width, height, &kernel);
    for _ in 0..60 {
        let x = rng.next_below(width);
        let y = rng.next_below(height);
        let delta =
            calculate_toggle_error_change(&target, &pattern, x, y, width, height, &kernel, &metrics);
        let before = metrics.total_error;
        update_error_metrics_after_toggle(
            &mut metrics, delta, &target, &pattern, x, y, width, height, &kernel,
        );
        pattern[y * width + x] = !pattern[y * width + x];
        assert_eq!(metrics.total_error as i128, before as i128 + delta);
        let fresh = calculate_initial_error_metrics(&target, &pattern, width, height, &kernel);
        assert_eq!(metrics.total_error, fresh.total_error);
        assert_eq!(metrics.filtered_output, fresh.filtered_output);
    }
}

#[test]
fn toggling_twice_restores_the_metrics() {
    let kernel = hvs_kernel(3);
    let target = vec![90u8; 20];
    let mut pattern = vec![false; 20];
    let start = calculate_initial_error_metrics(&target, &pattern, 5, 4, &kernel);
    let mut metrics = calculate_initial_error_metrics(&target, &pattern, 5, 4, &kernel);
    let there = calculate_toggle_error_change(&target, &pattern, 2, 2, 5, 4, &kernel, &metrics);
    update_error_metrics_after_toggle(&mut metrics, there, &target, &pattern, 2, 2, 5, 4, &kernel);
    pattern[12] = true;
    let back = calculate_toggle_error_change(&target, &pattern, 2, 2, 5, 4, &kernel, &metrics);
    assert_eq!(back, -there);
    update_error_metrics_after_toggle(&mut metrics, back, &target, &pattern, 2, 2, 5, 4, &kernel);
    assert_eq!(metrics.total_error, start.total_error);
    assert_eq!(metrics.filtered_output, start.filtered_output);
}

#[test]
fn the_quantised_hvs_kernel_is_nearly_normalised() {
    let kernel = hvs_kernel(7);
    assert_eq!(kernel.radius, 3);
    assert!(kernel.total <= 1 << 20);
    assert!(kernel.total > (1 << 20) - 49);
    // The centre is the heaviest tap and the corners the lightest.
    let centre = kernel.weight_of(3, 3);
    for fy in 0..7 {
        for fx in 0..7 {
            assert!(kernel.weight_of(fx, fy) <= centre);
            assert!(kernel.weight_of(fx, fy) >= kernel.weight_of(0, 0));
            assert_eq!(kernel.weight_of(fx, fy), kernel.weight_of(6 - fx, fy));
            assert_eq!(kernel.weight_of(fx, fy), kernel.weight_of(fy, fx));
        }
    }
}

#[test]
fn a_one_tap_hvs_kernel_sees_the_pattern_itself() {
    let kernel = hvs_kernel(1);
    assert_eq!(kernel.radius, 0);
    assert_eq!(kernel.weights, vec![1 << 20]);
    assert_eq!(kernel.total, 1 << 20);
    let target = vec![255u8, 0, 100];
    let pattern = vec![true, false, false];
    let metrics = calculate_initial_error_metrics(&target, &pattern, 3, 1, &kernel);
    assert_eq!(metrics.filtered_output, vec![255 << 20, 0, 0]);
    assert_eq!(metrics.total_error, (100u128 << 20) * (100u128 << 20));
}
