use dither_core::blue_noise::blue_noise_dither;
use dither_core::blue_noise::build_distance_field;
use dither_core::blue_noise::generate_blue_noise_pattern;
use dither_core::blue_noise::nearest_distance_of;
use dither_core::blue_noise::place_points;
use dither_core::blue_noise::place_round;
use dither_core::blue_noise::sample_is_dark;
use dither_core::blue_noise::select_best_candidate;
use dither_core::blue_noise::target_point_count;
use dither_core::blue_noise::threshold_with_noise;
use dither_core::blue_noise::BlueNoiseParams;
use dither_core::blue_noise::NO_POINT;
use dither_core::random::RandomSource;
use dither_core::ratio::Ratio;
use dither_core::toroidal::distance_squared_of;
use dither_core::void_cluster::initialize_random_pattern;

fn mean_nearest_neighbour(points: &[(usize, usize)], size: usize) -> f64 {
    let mut sum = 0.0;
    for (i, &p) in points.iter().enumerate() {
        let mut nearest = u128::MAX;
        for (j, &q) in points.iter().enumerate() {
            if i != j {
                nearest = nearest.min(distance_squared_of(p, q, size, size));
            }
        }
        sum += (nearest as f64).sqrt();
    }
    sum / points.len() as f64
}

#[test]
fn field_default_parameters() {
    let params = BlueNoiseParams::default();
    assert_eq!(params.tile_size, 64);
    assert_eq!((params.density.num, params.density.den), (1, 10));
    assert_eq!(params.candidates_per_point, 20);
}

#[test]
fn target_count_is_the_share_of_the_cells_rounded_down() {
    let tenth = Ratio::new(1, 10).unwrap();
    assert_eq!(target_point_count(64, tenth), 409);
    assert_eq!(target_point_count(3, tenth), 0);
    assert_eq!(target_point_count(4, tenth), 1);
    assert_eq!(target_point_count(0, tenth), 0);
}

#[test]
fn the_default_tile_holds_about_a_tenth_of_its_cells() {
    for seed in 0..4u64 {
        let mut rng = RandomSource::from_seed(seed);
        let field = generate_blue_noise_pattern(&BlueNoiseParams::default(), &mut rng);
        assert!(field.points.len() <= 409);
        // A round places nothing only where all 20 candidates are taken.
        assert_eq!(field.points.len(), 409);
        let mut cells: Vec<(usize, usize)> = field.points.clone();
        cells.sort();
        cells.dedup();
        assert_eq!(cells.len(), field.points.len());
        assert!(field.points.iter().all(|&(x, y)| x < 64 && y < 64));
    }
}

#[test]
fn placed_points_lie_further_apart_than_random_points() {
    let mut rng = RandomSource::from_seed(2);
    let field = generate_blue_noise_pattern(&BlueNoiseParams::default(), &mut rng);
    let count = field.points.len();
    let share = Ratio::new(count as u64, 4096).unwrap();
    let grid = initialize_random_pattern(64, 64, share, &mut rng);
    let mut random = Vec::new();
    for y in 0..64 {
        for x in 0..64 {
            if grid[y * 64 + x] {
                random.push((x, y));
            }
        }
    }
    assert_eq!(random.len(), count);
    let spread = mean_nearest_neighbour(&field.points, 64);
    let chance = mean_nearest_neighbour(&random, 64);
    assert!(spread > chance, "{} against {}", spread, chance);
}

#[test]
fn nearest_distance_is_the_least_wrap_around_distance() {
    let points = vec![(0usize, 0usize), (4, 4)];
    assert_eq!(nearest_distance_of(&points, 1, 0, 8), 1);
    assert_eq!(nearest_distance_of(&points, 7, 7, 8), 2);
    assert_eq!(nearest_distance_of(&points, 4, 3, 8), 1);
    assert_eq!(nearest_distance_of(&points, 2, 2, 8), 8);
    assert_eq!(nearest_distance_of(&points, 0, 0, 8), 0);
    assert_eq!(nearest_distance_of(&vec![], 3, 3, 8), NO_POINT);
}

#[test]
fn the_best_candidate_is_the_first_of_the_furthest_free_ones() {
    let points = vec![(0usize, 0usize)];
    let mut occupied = vec![false; 64];
    occupied[0] = true;
    let candidates = vec![(1usize, 0usize), (4, 4), (0, 0), (4, 4), (3, 3)];
    assert_eq!(select_best_candidate(&points, &occupied, &candidates, 8), Some(1));
    let candidates = vec![(0usize, 0usize), (0, 0)];
    assert_eq!(select_best_candidate(&points, &occupied, &candidates, 8), None);
    assert_eq!(select_best_candidate(&points, &occupied, &vec![], 8), None);
    let candidates = vec![(7usize, 0usize), (1, 0), (0, 7)];
    assert_eq!(select_best_candidate(&points, &occupied, &candidates, 8), Some(0));
}

#[test]
fn a_tile_too_small_for_a_point_has_none() {
    let mut rng = RandomSource::from_seed(6);
    let tenth = Ratio::new(1, 10).unwrap();
    assert!(place_points(3, tenth, 20, &mut rng).is_empty());
    let field = build_distance_field(vec![], 3);
    assert_eq!(field.distances, vec![NO_POINT; 9]);
    assert_eq!(field.max_distance, NO_POINT);
    assert_eq!(field.sample(5, 7), (NO_POINT, NO_POINT));
}

#[test]
fn a_round_without_candidates_places_nothing() {
    let mut rng = RandomSource::from_seed(6);
    let half = Ratio::new(1, 2).unwrap();
    let points = place_points(8, half, 0, &mut rng);
    assert_eq!(points.len(), 1);
}

#[test]
fn a_full_tile_is_never_overfilled() {
    let mut rng = RandomSource::from_seed(10);
    let all = Ratio::new(1, 1).unwrap();
    let points = place_points(4, all, 3, &mut rng);
    assert!(points.len() >= 1 && points.len() <= 16);
    let mut cells = points.clone();
    cells.sort();
    cells.dedup();
    assert_eq!(cells.len(), points.len());
}

#[test]
fn the_field_holds_every_cells_nearest_distance() {
    let points = vec![(1usize, 1usize), (6, 2)];
    let field = build_distance_field(points.clone(), 8);
    assert_eq!(field.size, 8);
    assert_eq!(field.points, points);
    let mut max = 0;
    for y in 0..8 {
        for x in 0..8 {
            let mut nearest = u128::MAX;
            for &p in &points {
                nearest = nearest.min(distance_squared_of((x, y), p, 8, 8));
            }
            assert_eq!(field.distances[y * 8 + x] as u128, nearest);
            max = max.max(nearest);
        }
    }
    assert_eq!(field.max_distance as u128, max);
    assert_eq!(field.distances[1 * 8 + 1], 0);
    assert_eq!(field.distances[2 * 8 + 6], 0);
}

#[test]
fn samples_repeat_with_the_tile() {
    let field = build_distance_field(vec![(0, 0)], 4);
    for y in 0..10 {
        for x in 0..10 {
            assert_eq!(
                field.sample(x, y),
                (field.distances[(y % 4) * 4 + x % 4], field.max_distance)
            );
        }
    }
    assert_eq!(field.sample(4, 8), (0, 8));
    assert_eq!(field.sample(6, 6), (8, 8));
}

#[test]
fn noise_decides_between_dark_and_light() {
    // Noise value 1: the sample gains 63.5.
    assert!(!sample_is_dark(100, 9, 9, 128));
    assert!(sample_is_dark(64, 9, 9, 128));
    assert!(!sample_is_dark(65, 9, 9, 128));
    // Noise value 0: the sample loses 64.
    assert!(sample_is_dark(100, 0, 9, 128));
    assert!(sample_is_dark(191, 0, 9, 128));
    assert!(!sample_is_dark(192, 0, 9, 128));
    // A field of zeros has noise value 0 everywhere.
    assert!(sample_is_dark(100, 0, 0, 128));
    assert!(!sample_is_dark(200, 0, 0, 128));
    // Nothing lies below a threshold of zero.
    assert!(!sample_is_dark(0, 0, 9, 0));
    // Noise value 2/5 adds (102 - 128) / 2 = -13: a sample of 113 lands on
    // the threshold of 100 and stays light, one of 112 falls below it.
    assert!(!sample_is_dark(113, 4, 25, 100));
    assert!(sample_is_dark(112, 4, 25, 100));
    // Clamping at 255 keeps a saturated sample from passing for dark.
    assert!(!sample_is_dark(255, 9, 9, 255));
    assert!(sample_is_dark(254, 0, 9, 255));
}

#[test]
fn thresholding_with_noise_follows_the_field() {
    let field = build_distance_field(vec![(0, 0)], 4);
    let image = vec![100u8; 6 * 5];
    let pattern = threshold_with_noise(&image, 6, 5, 128, &field);
    for y in 0..5 {
        for x in 0..6 {
            let (d, max) = field.sample(x, y);
            assert_eq!(pattern[y * 6 + x], !sample_is_dark(100, d, max, 128));
        }
    }
    // At the point itself the noise is 0 and the sample falls to 36.
    assert!(!pattern[0]);
    // At the far corner of the tile the noise is 1 and the sample rises to 163.5.
    assert!(pattern[2 * 6 + 2]);
}

#[test]
fn the_noise_dither_renders_opaque_black_and_white() {
    let mut rng = RandomSource::from_seed(15);
    let image: Vec<u8> = (0..70 * 66).map(|i| (i % 251) as u8).collect();
    let output = blue_noise_dither(&image, 70, 66, 128, &mut rng);
    assert_eq!(output.len(), 4 * 70 * 66);
    for pixel in output.chunks(4) {
        assert!(pixel[0] == 0 || pixel[0] == 255);
        assert_eq!(pixel[0], pixel[1]);
        assert_eq!(pixel[0], pixel[2]);
        assert_eq!(pixel[3], 255);
    }
    assert!(blue_noise_dither(&[], 0, 0, 128, &mut rng).is_empty());
}

#[test]
fn the_dither_keeps_the_tone_of_a_gray_image() {
    let mut rng = RandomSource::from_seed(16);
    let black = vec![0u8; 64 * 64];
    let output = blue_noise_dither(&black, 64, 64, 128, &mut rng);
    assert!(output.chunks(4).all(|p| p[0] == 0));
    let white = vec![255u8; 64 * 64];
    let output = blue_noise_dither(&white, 64, 64, 128, &mut rng);
    assert!(output.chunks(4).all(|p| p[0] == 255));
    let gray = vec![128u8; 64 * 64];
    let output = blue_noise_dither(&gray, 64, 64, 128, &mut rng);
    let on = output.chunks(4).filter(|p| p[0] == 255).count();
    assert!(on > 0 && on < 64 * 64);
}

#[test]
fn a_round_places_the_best_free_candidate() {
    let mut points = vec![(0usize, 0usize)];
    let mut occupied = vec![false; 64];
    occupied[0] = true;
    let candidates = vec![(1usize, 0usize), (4, 4), (0, 0), (4, 4), (3, 3)];
    assert!(place_round(&mut points, &mut occupied, &candidates, 8));
    assert_eq!(points, vec![(0, 0), (4, 4)]);
    assert!(occupied[4 * 8 + 4]);
    assert_eq!(occupied.iter().filter(|&&o| o).count(), 2);
    // With (4, 4) taken, (3, 3) is the furthest of the same candidates.
    assert!(place_round(&mut points, &mut occupied, &candidates, 8));
    assert_eq!(points, vec![(0, 0), (4, 4), (3, 3)]);
}

#[test]
fn a_round_without_a_free_candidate_places_nothing() {
    let mut points = vec![(2usize, 1usize), (5, 5)];
    let mut occupied = vec![false; 64];
    occupied[1 * 8 + 2] = true;
    occupied[5 * 8 + 5] = true;
    let before = occupied.clone();
    assert!(!place_round(&mut points, &mut occupied, &vec![(5, 5), (2, 1), (5, 5)], 8));
    assert_eq!(points, vec![(2, 1), (5, 5)]);
    assert_eq!(occupied, before);
    assert!(!place_round(&mut points, &mut occupied, &vec![], 8));
    assert_eq!(points.len(), 2);
}

#[test]
fn placement_is_the_first_point_and_its_rounds() {
    for (size, num, den, per_point) in [(8usize, 1u64, 2u64, 3usize), (6, 1, 1, 2), (16, 1, 10, 20)] {
        let density = Ratio::new(num, den).unwrap();
        let mut rng = RandomSource::from_seed(size as u64);
        let points = place_points(size, density, per_point, &mut rng);

        // The same seed gives the same draws: play the rounds one by one.
        let target = target_point_count(size, density);
        let mut replay_rng = RandomSource::from_seed(size as u64);
        let first = (replay_rng.next_below(size), replay_rng.next_below(size));
        let mut replay = vec![first];
        let mut occupied = vec![false; size * size];
        occupied[first.1 * size + first.0] = true;
        let mut skipped = 0;
        for _ in 1..target {
            let mut candidates = Vec::new();
            for _ in 0..per_point {
                let x = replay_rng.next_below(size);
                let y = replay_rng.next_below(size);
                candidates.push((x, y));
            }
            if !place_round(&mut replay, &mut occupied, &candidates, size) {
                skipped += 1;
            }
        }
        assert_eq!(points, replay);
        assert_eq!(points.len(), target - skipped);
    }
}
