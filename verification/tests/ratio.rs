use dither_core::ratio::wide_mul;
use dither_core::ratio::Ratio;

#[test]
fn ratio_needs_a_denominator() {
    assert!(Ratio::new(1, 0).is_none());
    let ratio = Ratio::new(3, 4).unwrap();
    assert_eq!((ratio.num, ratio.den), (3, 4));
}

#[test]
fn scale_down_rounds_down() {
    let tenth = Ratio::new(1, 10).unwrap();
    assert_eq!(tenth.scale_down(4096), 409);
    assert_eq!(tenth.scale_down(9), 0);
    assert_eq!(tenth.scale_down(10), 1);
    let half = Ratio::new(1, 2).unwrap();
    assert_eq!(half.scale_down(15), 7);
    assert_eq!(half.scale_down(usize::MAX), usize::MAX / 2);
    let whole = Ratio::new(7, 7).unwrap();
    assert_eq!(whole.scale_down(usize::MAX), usize::MAX);
}

#[test]
fn share_comparison_is_exact() {
    let thousandth = Ratio::new(1, 1000).unwrap();
    assert!(!thousandth.is_share_below(1, 1000));
    assert!(thousandth.is_share_below(1, 1001));
    assert!(!thousandth.is_share_below(2, 1000));
    assert!(thousandth.is_share_below(0, 1));
    assert!(!thousandth.is_share_below(0, 0));
}

#[test]
fn share_comparison_holds_beyond_one_word() {
    let big = (1u128 << 119) + 12345;
    let third = Ratio::new(1, 3).unwrap();
    assert!(third.is_share_below(big / 3 - 1, big));
    assert!(!third.is_share_below(big / 3 + 1, big));
    let wide = Ratio::new(u64::MAX, u64::MAX).unwrap();
    assert!(wide.is_share_below(big - 1, big));
    assert!(!wide.is_share_below(big, big));
}

#[test]
fn wide_mul_splits_the_product() {
    assert_eq!(wide_mul(0, 5), (0, 0));
    assert_eq!(wide_mul(3, 5), (0, 15));
    assert_eq!(wide_mul(1 << 64, 2), (2, 0));
    assert_eq!(wide_mul((1 << 64) + 1, u64::MAX), (u64::MAX as u128, u64::MAX));
    assert_eq!(wide_mul(u64::MAX as u128, u64::MAX), ((u64::MAX - 1) as u128, 1));
}
