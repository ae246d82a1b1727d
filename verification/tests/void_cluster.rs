use dither_core::kernel::Kernel;
use dither_core::random::RandomSource;
use dither_core::ratio::Ratio;
use dither_core::void_cluster::calculate_cluster_value;
use dither_core::void_cluster::find_largest_void;
use dither_core::void_cluster::find_tightest_cluster;
use dither_core::void_cluster::generate_void_and_cluster_matrix;
use dither_core::void_cluster::initialize_random_pattern;
use dither_core::void_cluster::normalized_entry;
use dither_core::void_cluster::nth_clear_cell;
use dither_core::void_cluster::rank_from_entry;
use dither_core::void_cluster::sample_passes_rank;
use dither_core::void_cluster::threshold_with_matrix;
use dither_core::void_cluster::void_and_cluster_dither;
use dither_core::void_cluster::void_and_cluster_dither_sized;
use dither_core::void_cluster::Phase;
use dither_core::void_cluster::StepOutcome;
use dither_core::void_cluster::VoidClusterBuilder;

fn gaussian_kernel(radius: usize) -> Kernel {
    let side = 2 * radius + 1;
    let variance = (radius * radius) as f64;
    let mut weights = Vec::new();
    for fy in 0..side {
        for fx in 0..side {
            let dx = fx as f64 - radius as f64;
            let dy = fy as f64 - radius as f64;
            if dx == 0.0 && dy == 0.0 {
                weights.push(0);
            } else {
                let weight = (-(dx * dx + dy * dy) / (2.0 * variance)).exp();
                weights.push((weight * 65536.0).floor() as u32);
            }
        }
    }
    Kernel::new(side, weights).unwrap()
}

fn unit_cross() -> Kernel {
    Kernel::new(3, vec![0, 1, 0, 1, 0, 1, 0, 1, 0]).unwrap()
}

#[test]
fn ranks_form_a_bijection_for_small_sizes() {
    let kernel = gaussian_kernel(2);
    for size in 1..=9usize {
        let mut rng = RandomSource::from_seed(size as u64);
        let matrix = generate_void_and_cluster_matrix(size, &kernel, &mut rng);
        assert_eq!(matrix.size, size);
        let mut seen = vec![false; size * size];
        for &rank in &matrix.ranks {
            assert!(rank < size * size);
            assert!(!seen[rank]);
            seen[rank] = true;
        }
        assert!(seen.iter().all(|&s| s));
        for (rank, &cell) in matrix.cells.iter().enumerate() {
            assert_eq!(matrix.ranks[cell], rank);
        }
    }
}

#[test]
fn size_zero_gives_the_empty_matrix() {
    let kernel = gaussian_kernel(2);
    let mut rng = RandomSource::from_seed(3);
    let matrix = generate_void_and_cluster_matrix(0, &kernel, &mut rng);
    assert_eq!(matrix.size, 0);
    assert!(matrix.ranks.is_empty());
    assert!(matrix.cells.is_empty());
}

#[test]
fn mid_gray_four_by_four_turns_eight_pixels_on() {
    let kernel = gaussian_kernel(2);
    let mut rng = RandomSource::from_seed(11);
    let matrix = generate_void_and_cluster_matrix(4, &kernel, &mut rng);
    let image = vec![128u8; 16];
    let pattern = threshold_with_matrix(&image, 4, 4, &matrix);
    assert_eq!(pattern.len(), 16);
    assert_eq!(pattern.iter().filter(|&&on| on).count(), 8);
    for (cell, &on) in pattern.iter().enumerate() {
        assert_eq!(on, matrix.ranks[cell] <= 7);
    }
}

#[test]
fn the_matrix_does_not_depend_on_the_seed() {
    let kernel = gaussian_kernel(2);
    let mut first = RandomSource::from_seed(1);
    let mut second = RandomSource::from_seed(2);
    let a = generate_void_and_cluster_matrix(6, &kernel, &mut first);
    let b = generate_void_and_cluster_matrix(6, &kernel, &mut second);
    assert_eq!(a.ranks, b.ranks);
}

#[test]
fn the_first_cell_removed_from_a_full_grid_is_the_origin() {
    let kernel = gaussian_kernel(2);
    let mut rng = RandomSource::from_seed(5);
    let matrix = generate_void_and_cluster_matrix(5, &kernel, &mut rng);
    assert_eq!(matrix.ranks[0], 24);
    assert_eq!(matrix.cells[24], 0);
}

#[test]
fn cluster_value_counts_wrapped_neighbours() {
    let kernel = unit_cross();
    // 3 by 3 grid with the right-hand column set.
    let grid = vec![false, false, true, false, false, true, false, false, true];
    // The left neighbour of (0, 1) wraps round to (2, 1).
    assert_eq!(calculate_cluster_value(&grid, 0, 1, 3, 3, &kernel), 1);
    assert_eq!(calculate_cluster_value(&grid, 1, 1, 3, 3, &kernel), 1);
    // (2, 1) has set cells above and below; itself is left out.
    assert_eq!(calculate_cluster_value(&grid, 2, 1, 3, 3, &kernel), 2);
}

#[test]
fn cluster_value_uses_the_tap_weights() {
    let kernel = Kernel::new(3, vec![1, 2, 3, 4, 100, 6, 7, 8, 9]).unwrap();
    let grid = vec![true; 9];
    assert_eq!(calculate_cluster_value(&grid, 1, 1, 3, 3, &kernel), 1 + 2 + 3 + 4 + 6 + 7 + 8 + 9);
    let mut one = vec![false; 9];
    one[0] = true;
    // From (1, 1) the cell (0, 0) lies under the tap (0, 0).
    assert_eq!(calculate_cluster_value(&one, 1, 1, 3, 3, &kernel), 1);
    // From (2, 2) the cell (0, 0) lies one step right and down, wrapped: tap (2, 2).
    assert_eq!(calculate_cluster_value(&one, 2, 2, 3, 3, &kernel), 9);
}

#[test]
fn largest_void_is_the_first_least_crowded_clear_cell() {
    let kernel = unit_cross();
    let mut grid = vec![false; 16];
    grid[0] = true;
    // Cells next to (0, 0) on the torus have value 1, the others 0; the first
    // clear cell with value 0 in row-major order is (2, 0).
    assert_eq!(find_largest_void(&grid, 4, 4, &kernel), Some((2, 0)));
    assert_eq!(find_largest_void(&vec![true; 16], 4, 4, &kernel), None);
    assert_eq!(find_largest_void(&vec![false; 16], 4, 4, &kernel), Some((0, 0)));
}

#[test]
fn tightest_cluster_is_the_first_most_crowded_set_cell() {
    let kernel = unit_cross();
    let mut grid = vec![false; 16];
    grid[5] = true;
    grid[6] = true;
    grid[10] = true;
    // (2, 1) touches both (1, 1) and (2, 2).
    assert_eq!(find_tightest_cluster(&grid, 4, 4, &kernel), Some((2, 1)));
    assert_eq!(find_tightest_cluster(&vec![false; 16], 4, 4, &kernel), None);
    assert_eq!(find_tightest_cluster(&vec![true; 16], 4, 4, &kernel), Some((0, 0)));
}

#[test]
fn random_pattern_has_the_requested_density() {
    let mut rng = RandomSource::from_seed(42);
    let half = Ratio::new(1, 2).unwrap();
    let pattern = initialize_random_pattern(5, 3, half, &mut rng);
    assert_eq!(pattern.len(), 15);
    assert_eq!(pattern.iter().filter(|&&on| on).count(), 7);
    let tenth = Ratio::new(1, 10).unwrap();
    let pattern = initialize_random_pattern(8, 8, tenth, &mut rng);
    assert_eq!(pattern.iter().filter(|&&on| on).count(), 6);
    let all = Ratio::new(3, 3).unwrap();
    let pattern = initialize_random_pattern(4, 4, all, &mut rng);
    assert!(pattern.iter().all(|&on| on));
    let none = Ratio::new(0, 1).unwrap();
    let pattern = initialize_random_pattern(4, 4, none, &mut rng);
    assert!(pattern.iter().all(|&on| !on));
}

#[test]
fn nth_clear_cell_skips_set_cells() {
    let grid = vec![true, false, false, true, false, true];
    assert_eq!(nth_clear_cell(&grid, 3, 2, 0), (1, 0));
    assert_eq!(nth_clear_cell(&grid, 3, 2, 1), (2, 0));
    assert_eq!(nth_clear_cell(&grid, 3, 2, 2), (1, 1));
}

#[test]
fn builder_walks_through_its_phases() {
    let kernel = gaussian_kernel(1);
    let mut rng = RandomSource::from_seed(9);
    let mut builder = VoidClusterBuilder::new(2, &mut rng);
    assert!(matches!(builder.phase, Phase::VoidFill));
    assert_eq!(builder.ones, 2);
    assert!(matches!(builder.step(&kernel), StepOutcome::Filled { .. }));
    assert!(matches!(builder.step(&kernel), StepOutcome::Filled { .. }));
    assert_eq!(builder.ones, 4);
    assert_eq!(builder.rank, 2);
    assert!(matches!(builder.step(&kernel), StepOutcome::RemovalStarted));
    assert_eq!(builder.rank, 3);
    assert!(matches!(builder.step(&kernel), StepOutcome::Removed { x: 0, y: 0 }));
    assert_eq!(builder.ranks[0], 3);
    assert!(matches!(builder.step(&kernel), StepOutcome::Removed { .. }));
    assert!(matches!(builder.step(&kernel), StepOutcome::Removed { .. }));
    assert!(matches!(builder.step(&kernel), StepOutcome::Removed { .. }));
    assert_eq!(builder.ones, 0);
    assert_eq!(builder.rank, 0);
    assert!(!builder.is_done());
    assert!(matches!(builder.step(&kernel), StepOutcome::Finished));
    assert!(builder.is_done());
    assert!(matches!(builder.step(&kernel), StepOutcome::Idle));
    let matrix = builder.into_matrix();
    let mut ranks = matrix.ranks.clone();
    ranks.sort();
    assert_eq!(ranks, vec![0, 1, 2, 3]);
}

#[test]
fn rank_threshold_compares_fractions_exactly() {
    // 16 cells: rank r stands for r / 15, a sample s for s / 255.
    assert!(sample_passes_rank(17, 1, 16));
    assert!(!sample_passes_rank(16, 1, 16));
    assert!(sample_passes_rank(0, 0, 16));
    assert!(sample_passes_rank(255, 15, 16));
    assert!(!sample_passes_rank(254, 15, 16));
    // A single cell has no top rank to divide by: every sample passes.
    assert!(sample_passes_rank(0, 0, 1));
}

#[test]
fn matrix_lookup_tiles_over_the_image() {
    let kernel = gaussian_kernel(2);
    let mut rng = RandomSource::from_seed(8);
    let matrix = generate_void_and_cluster_matrix(3, &kernel, &mut rng);
    for y in 0..7 {
        for x in 0..7 {
            assert_eq!(matrix.rank_at(x, y), matrix.ranks[(y % 3) * 3 + (x % 3)]);
        }
    }
}

#[test]
fn dither_renders_opaque_black_and_white() {
    let kernel = gaussian_kernel(2);
    let mut rng = RandomSource::from_seed(21);
    let image: Vec<u8> = (0..40 * 36).map(|i| (i % 256) as u8).collect();
    let output = void_and_cluster_dither(&image, 40, 36, 128, &kernel, &mut rng);
    assert_eq!(output.len(), 4 * 40 * 36);
    for pixel in output.chunks(4) {
        assert!(pixel[0] == 0 || pixel[0] == 255);
        assert_eq!(pixel[0], pixel[1]);
        assert_eq!(pixel[0], pixel[2]);
        assert_eq!(pixel[3], 255);
    }
}

#[test]
fn dither_of_white_is_white_and_of_black_is_nearly_black() {
    let kernel = gaussian_kernel(2);
    let mut rng = RandomSource::from_seed(22);
    let white = vec![255u8; 64 * 64];
    let output = void_and_cluster_dither(&white, 64, 64, 0, &kernel, &mut rng);
    assert!(output.iter().all(|&b| b == 255));
    let black = vec![0u8; 64 * 64];
    let output = void_and_cluster_dither(&black, 64, 64, 0, &kernel, &mut rng);
    // Only the cell of rank 0 passes a sample of 0: one pixel in each tile.
    let on = output.chunks(4).filter(|p| p[0] == 255).count();
    assert_eq!(on, 4);
}

#[test]
fn dither_of_an_empty_image_is_empty() {
    let kernel = gaussian_kernel(2);
    let mut rng = RandomSource::from_seed(23);
    assert!(void_and_cluster_dither(&[], 0, 5, 10, &kernel, &mut rng).is_empty());
    assert!(void_and_cluster_dither(&[], 7, 0, 10, &kernel, &mut rng).is_empty());
}

#[test]
fn fixed_point_entries_recover_their_ranks() {
    let kernel = gaussian_kernel(2);
    let mut rng = RandomSource::from_seed(13);
    let matrix = generate_void_and_cluster_matrix(7, &kernel, &mut rng);
    for scale in [49u64, 50, 255, 1 << 16, 1 << 32, u64::MAX] {
        let entries = matrix.normalized(scale);
        assert_eq!(entries.len(), 49);
        let mut seen = std::collections::BTreeSet::new();
        for (cell, &entry) in entries.iter().enumerate() {
            assert!(entry <= scale);
            assert_eq!(rank_from_entry(entry, 48, scale), matrix.ranks[cell] as u128);
            assert!(seen.insert(entry));
        }
    }
}

#[test]
fn fixed_point_entry_formula() {
    assert_eq!(normalized_entry(0, 15, 1000), 0);
    assert_eq!(normalized_entry(15, 15, 1000), 1000);
    assert_eq!(normalized_entry(7, 15, 1000), 466);
    assert_eq!(rank_from_entry(466, 15, 1000), 7);
    assert_eq!(normalized_entry(1, 3, 4), 1);
    assert_eq!(normalized_entry(2, 3, 4), 2);
    assert_eq!(rank_from_entry(2, 3, 4), 2);
    // A single cell has no top rank.
    assert_eq!(normalized_entry(0, 0, 10), 0);
    assert_eq!(rank_from_entry(0, 0, 10), 0);
}

#[test]
fn float_entries_recover_their_ranks() {
    let kernel = gaussian_kernel(2);
    let mut rng = RandomSource::from_seed(14);
    for size in [2usize, 4, 9, 32] {
        let matrix = generate_void_and_cluster_matrix(size, &kernel, &mut rng);
        let top = (size * size - 1) as f32;
        let mut seen = vec![false; size * size];
        for &rank in &matrix.ranks {
            let entry = rank as f32 / top;
            assert!((0.0..=1.0).contains(&entry));
            let back = (entry * top).round() as usize;
            assert_eq!(back, rank);
            assert!(!seen[back]);
            seen[back] = true;
        }
    }
}

#[test]
fn every_cell_is_the_tightest_cluster_of_its_cut() {
    let kernel = gaussian_kernel(2);
    let mut rng = RandomSource::from_seed(19);
    let size = 6;
    let matrix = generate_void_and_cluster_matrix(size, &kernel, &mut rng);
    for rank in 0..size * size {
        let cut: Vec<bool> = matrix.ranks.iter().map(|&r| r <= rank).collect();
        let cell = matrix.cells[rank];
        assert_eq!(
            find_tightest_cluster(&cut, size, size, &kernel),
            Some((cell % size, cell / size))
        );
    }
}

#[test]
fn mid_gray_dithered_against_a_matrix_of_four_turns_eight_pixels_on() {
    let kernel = gaussian_kernel(2);
    let mut rng = RandomSource::from_seed(31);
    let image = vec![128u8; 16];
    let output = void_and_cluster_dither_sized(&image, 4, 4, 4, &kernel, &mut rng);
    assert_eq!(output.len(), 64);
    let mut on = 0;
    for pixel in output.chunks(4) {
        assert!(pixel[0] == 0 || pixel[0] == 255);
        assert_eq!(pixel[0], pixel[1]);
        assert_eq!(pixel[0], pixel[2]);
        assert_eq!(pixel[3], 255);
        if pixel[0] == 255 {
            on += 1;
        }
    }
    assert_eq!(on, 8);
}

#[test]
fn a_matrix_without_cells_leaves_the_picture_black() {
    let kernel = gaussian_kernel(2);
    let mut rng = RandomSource::from_seed(32);
    let image = vec![200u8; 6];
    let output = void_and_cluster_dither_sized(&image, 3, 2, 0, &kernel, &mut rng);
    assert_eq!(output.len(), 24);
    for pixel in output.chunks(4) {
        assert_eq!(pixel, &[0, 0, 0, 255]);
    }
}

#[test]
fn the_sized_dither_with_the_default_size_is_the_dither() {
    let kernel = gaussian_kernel(2);
    let image: Vec<u8> = (0..35 * 33).map(|i| (i * 7 % 256) as u8).collect();
    let mut first = RandomSource::from_seed(1);
    let mut second = RandomSource::from_seed(1);
    assert_eq!(
        void_and_cluster_dither(&image, 35, 33, 9, &kernel, &mut first),
        void_and_cluster_dither_sized(&image, 35, 33, 32, &kernel, &mut second)
    );
}
