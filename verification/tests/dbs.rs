use dither_core::dbs::direct_binary_search;
use dither_core::dbs::direct_binary_search_dither;
use dither_core::dbs::pass_converged;
use dither_core::dbs::run_pass;
use dither_core::dbs::threshold_pattern;
use dither_core::dbs::try_toggle;
use dither_core::dbs::DbsParams;
use dither_core::hvs::calculate_initial_error_metrics;
use dither_core::kernel::hvs_filter_shape;
use dither_core::kernel::Kernel;
use dither_core::random::RandomSource;
use dither_core::ratio::Ratio;

fn hvs_kernel(size: usize) -> Kernel {
    let shape = hvs_filter_shape(size);
    let mut weights = Vec::new();
    for fy in 0..shape.side {
        for fx in 0..shape.side {
            let (num, den) = shape.exponent(fx, fy);
            weights.push((-(num as f64) / (den as f64)).exp());
        }
    }
    let sum: f64 = weights.iter().sum();
    let quantised = weights.iter().map(|w| (w / sum * 1_048_576.0).floor() as u32).collect();
    Kernel::new(shape.side, quantised).unwrap()
}

fn gradient(width: usize, height: usize) -> Vec<u8> {
    let mut image = Vec::new();
    for y in 0..height {
        for x in 0..width {
            image.push(((x * 255) / (width - 1).max(1) + y) as u8);
        }
    }
    image
}

#[test]
fn search_default_parameters() {
    let params = DbsParams::default();
    assert_eq!(params.max_iterations, 10);
    assert_eq!(params.candidate_cap, 5000);
    assert_eq!((params.min_improvement.num, params.min_improvement.den), (1, 1000));
}

#[test]
fn thresholding_sets_samples_at_or_above_the_threshold() {
    assert_eq!(threshold_pattern(&[0, 127, 128, 255], 128), vec![false, false, true, true]);
    assert_eq!(threshold_pattern(&[0, 1], 0), vec![true, true]);
    assert_eq!(threshold_pattern(&[254, 255], 255), vec![false, true]);
    assert!(threshold_pattern(&[], 9).is_empty());
}

#[test]
fn an_all_zero_image_converges_in_one_pass_without_a_toggle() {
    let kernel = hvs_kernel(7);
    let mut rng = RandomSource::from_seed(1);
    let image = vec![0u8; 16 * 16];
    let params = DbsParams::default();
    let outcome = direct_binary_search(&image, 16, 16, 128, &kernel, &params, &mut rng);
    assert_eq!(outcome.passes.len(), 1);
    assert_eq!(outcome.passes[0].accepted, 0);
    assert_eq!(outcome.passes[0].error_before, 0);
    assert_eq!(outcome.passes[0].error_after, 0);
    assert_eq!(outcome.accepted, 0);
    assert_eq!(outcome.initial_error, 0);
    assert_eq!(outcome.final_error, 0);
    assert!(outcome.pattern.iter().all(|&on| !on));
    let output = direct_binary_search_dither(&image, 16, 16, 128, &kernel, &mut rng);
    for pixel in output.chunks(4) {
        assert_eq!(pixel, &[0, 0, 0, 255]);
    }
}

#[test]
fn the_search_never_ends_above_the_thresholded_error() {
    let kernel = hvs_kernel(7);
    for seed in 0..6u64 {
        let mut rng = RandomSource::from_seed(seed);
        let width = 5 + rng.next_below(20);
        let height = 5 + rng.next_below(20);
        let image: Vec<u8> = (0..width * height).map(|_| rng.next_below(256) as u8).collect();
        let threshold = rng.next_below(256) as u8;
        let params = DbsParams::default();
        let outcome = direct_binary_search(&image, width, height, threshold, &kernel, &params, &mut rng);
        let start = threshold_pattern(&image, threshold);
        let initial = calculate_initial_error_metrics(&image, &start, width, height, &kernel);
        let last = calculate_initial_error_metrics(&image, &outcome.pattern, width, height, &kernel);
        assert_eq!(outcome.initial_error, initial.total_error);
        assert_eq!(outcome.final_error, last.total_error);
        assert!(outcome.final_error <= outcome.initial_error);
        assert_eq!(outcome.accepted == 0, outcome.final_error == outcome.initial_error);
        assert!(outcome.passes.len() >= 1 && outcome.passes.len() <= 10);
    }
}

#[test]
fn a_gray_image_is_improved_on() {
    let kernel = hvs_kernel(7);
    let mut rng = RandomSource::from_seed(31);
    let image = vec![100u8; 24 * 24];
    let params = DbsParams::default();
    let outcome = direct_binary_search(&image, 24, 24, 128, &kernel, &params, &mut rng);
    assert!(outcome.accepted > 0);
    assert!(outcome.final_error < outcome.initial_error);
    let on = outcome.pattern.iter().filter(|&&p| p).count();
    // About 100 / 255 of the pixels end up set.
    assert!(on > 24 * 24 / 4 && on < 24 * 24 / 2, "{} pixels set", on);
}

#[test]
fn every_accepted_toggle_lowers_the_error() {
    let kernel = hvs_kernel(5);
    let mut rng = RandomSource::from_seed(8);
    let (width, height) = (12, 10);
    let image = gradient(width, height);
    let mut pattern = threshold_pattern(&image, 128);
    let mut metrics = calculate_initial_error_metrics(&image, &pattern, width, height, &kernel);
    let mut accepted = 0;
    for _ in 0..400 {
        let x = rng.next_below(width);
        let y = rng.next_below(height);
        let before = metrics.total_error;
        let snapshot = pattern.clone();
        if try_toggle(&image, &mut pattern, &mut metrics, x, y, width, height, &kernel) {
            accepted += 1;
            assert!(metrics.total_error < before);
            assert_eq!(pattern[y * width + x], !snapshot[y * width + x]);
        } else {
            assert_eq!(metrics.total_error, before);
            assert_eq!(pattern, snapshot);
        }
        let fresh = calculate_initial_error_metrics(&image, &pattern, width, height, &kernel);
        assert_eq!(fresh.total_error, metrics.total_error);
    }
    assert!(accepted > 0);
}

#[test]
fn a_pass_reports_its_accepted_toggles() {
    let kernel = hvs_kernel(7);
    let mut rng = RandomSource::from_seed(3);
    let image = vec![128u8; 100];
    let mut pattern = threshold_pattern(&image, 128);
    let mut metrics = calculate_initial_error_metrics(&image, &pattern, 10, 10, &kernel);
    let before = metrics.total_error;
    let accepted = run_pass(&image, &mut pattern, &mut metrics, 10, 10, &kernel, 50, &mut rng);
    assert!(accepted <= 50);
    assert!(accepted > 0);
    assert!(metrics.total_error < before);
    let none = run_pass(&image, &mut pattern, &mut metrics, 10, 10, &kernel, 0, &mut rng);
    assert_eq!(none, 0);
}

#[test]
fn convergence_rule() {
    let thousandth = Ratio::new(1, 1000).unwrap();
    // No toggle accepted.
    assert!(pass_converged(0, 5000, 5000, thousandth));
    // No error to begin with.
    assert!(pass_converged(3, 0, 0, thousandth));
    // Improvement of exactly a thousandth is not below it.
    assert!(!pass_converged(1, 1000, 999, thousandth));
    assert!(!pass_converged(1, 1000, 500, thousandth));
    // Improvement of one in two thousand is.
    assert!(pass_converged(1, 2000, 1999, thousandth));
    // A threshold of zero is never undercut.
    let zero = Ratio::new(0, 1).unwrap();
    assert!(!pass_converged(1, 2000, 1999, zero));
}

#[test]
fn passes_are_capped() {
    let kernel = hvs_kernel(7);
    let mut rng = RandomSource::from_seed(17);
    let image = gradient(20, 20);
    let params = DbsParams {
        max_iterations: 3,
        candidate_cap: 10,
        min_improvement: Ratio::new(0, 1).unwrap(),
    };
    let outcome = direct_binary_search(&image, 20, 20, 128, &kernel, &params, &mut rng);
    assert!(outcome.passes.len() <= 3);
    assert!(outcome.accepted <= 30);
    let params = DbsParams {
        max_iterations: 0,
        candidate_cap: 10,
        min_improvement: Ratio::new(1, 1000).unwrap(),
    };
    let outcome = direct_binary_search(&image, 20, 20, 128, &kernel, &params, &mut rng);
    assert!(outcome.passes.is_empty());
    assert_eq!(outcome.pattern, threshold_pattern(&image, 128));
}

#[test]
fn the_search_leaves_an_image_without_pixels_alone() {
    let kernel = hvs_kernel(7);
    let mut rng = RandomSource::from_seed(4);
    let params = DbsParams::default();
    let outcome = direct_binary_search(&[], 0, 9, 128, &kernel, &params, &mut rng);
    assert!(outcome.passes.is_empty());
    assert!(outcome.pattern.is_empty());
    assert!(direct_binary_search_dither(&[], 9, 0, 128, &kernel, &mut rng).is_empty());
}

#[test]
fn the_search_renders_opaque_black_and_white() {
    let kernel = hvs_kernel(7);
    let mut rng = RandomSource::from_seed(12);
    let image = gradient(18, 14);
    let output = direct_binary_search_dither(&image, 18, 14, 128, &kernel, &mut rng);
    assert_eq!(output.len(), 4 * 18 * 14);
    for pixel in output.chunks(4) {
        assert!(pixel[0] == 0 || pixel[0] == 255);
        assert_eq!(pixel[0], pixel[1]);
        assert_eq!(pixel[0], pixel[2]);
        assert_eq!(pixel[3], 255);
    }
}

#[test]
fn the_passes_on_record_hang_together() {
    let kernel = hvs_kernel(7);
    let mut rng = RandomSource::from_seed(44);
    let image = gradient(30, 30);
    let params = DbsParams {
        max_iterations: 6,
        candidate_cap: 200,
        min_improvement: Ratio::new(1, 50).unwrap(),
    };
    let outcome = direct_binary_search(&image, 30, 30, 128, &kernel, &params, &mut rng);
    let passes = &outcome.passes;
    assert!(!passes.is_empty());
    assert_eq!(passes[0].error_before, outcome.initial_error);
    assert_eq!(passes[passes.len() - 1].error_after, outcome.final_error);
    let mut total = 0;
    for (i, pass) in passes.iter().enumerate() {
        assert!(pass.error_after <= pass.error_before);
        assert_eq!(pass.accepted == 0, pass.error_after == pass.error_before);
        assert!(pass.accepted <= 200);
        if i + 1 < passes.len() {
            assert_eq!(pass.error_after, passes[i + 1].error_before);
            assert!(!pass_converged(pass.accepted, pass.error_before, pass.error_after, params.min_improvement));
        } else if passes.len() < 6 {
            assert!(pass_converged(pass.accepted, pass.error_before, pass.error_after, params.min_improvement));
        }
        total += pass.accepted;
    }
    assert_eq!(outcome.accepted, total);
}

#[test]
fn a_pass_is_its_draws_considered_in_turn() {
    let kernel = hvs_kernel(5);
    let (width, height) = (11, 9);
    let image = gradient(width, height);
    for candidates in [0usize, 1, 7, 60] {
        let mut pattern = threshold_pattern(&image, 128);
        let mut metrics = calculate_initial_error_metrics(&image, &pattern, width, height, &kernel);
        let mut rng = RandomSource::from_seed(700 + candidates as u64);
        let accepted =
            run_pass(&image, &mut pattern, &mut metrics, width, height, &kernel, candidates, &mut rng);

        // The same seed gives the same draws: consider them one by one.
        let mut replay_pattern = threshold_pattern(&image, 128);
        let mut replay_metrics =
            calculate_initial_error_metrics(&image, &replay_pattern, width, height, &kernel);
        let mut replay_rng = RandomSource::from_seed(700 + candidates as u64);
        let mut replay_accepted = 0;
        for _ in 0..candidates {
            let x = replay_rng.next_below(width);
            let y = replay_rng.next_below(height);
            if try_toggle(
                &image, &mut replay_pattern, &mut replay_metrics, x, y, width, height, &kernel,
            ) {
                replay_accepted += 1;
            }
        }
        assert_eq!(accepted, replay_accepted);
        assert_eq!(pattern, replay_pattern);
        assert_eq!(metrics.total_error, replay_metrics.total_error);
        assert_eq!(metrics.filtered_output, replay_metrics.filtered_output);
    }
}

#[test]
fn a_single_dark_gray_pixel_below_the_threshold_comes_out_white() {
    let kernel = hvs_kernel(7);
    let mut rng = RandomSource::from_seed(5);
    let params = DbsParams::default();
    let outcome = direct_binary_search(&[100], 1, 1, 128, &kernel, &params, &mut rng);
    assert_eq!(outcome.pattern, vec![true]);
    assert_eq!(outcome.passes.len(), 2);
    assert_eq!(outcome.passes[0].accepted, 1);
    assert_eq!(outcome.passes[1].accepted, 0);
    assert_eq!(outcome.accepted, 1);
    let output = direct_binary_search_dither(&[100], 1, 1, 128, &kernel, &mut rng);
    assert_eq!(output, vec![255, 255, 255, 255]);
}
