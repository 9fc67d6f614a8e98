use isup::score::{nan_bits, total_order_key};
use isup::Score;

#[test]
fn default_score_is_all_zero() {
    let s = Score::default();
    assert_eq!(s.response_avg_nanos, 0);
    assert_eq!(f32::from_bits(s.score_bits), 0.0);
    assert_eq!(f32::from_bits(s.reliability_bits), 0.0);
}

#[test]
fn new_keeps_parts() {
    let s = Score::new(0.25f32.to_bits(), 0.75f32.to_bits(), 400_000_000);
    assert_eq!(f32::from_bits(s.score_bits), 0.25);
    assert_eq!(f32::from_bits(s.reliability_bits), 0.75);
    assert_eq!(s.response_avg_nanos, 400_000_000);
}

#[test]
fn order_key_follows_numeric_order() {
    let values = [-f32::INFINITY, -2.0, -0.001, 0.0, 0.000949647, 0.5, 1.0, f32::INFINITY];
    for pair in values.windows(2) {
        assert!(total_order_key(pair[0].to_bits()) < total_order_key(pair[1].to_bits()));
    }
    assert_eq!(total_order_key(0.0f32.to_bits()), 0x8000_0000);
    assert_eq!(total_order_key((-0.0f32).to_bits()), 0x7fff_ffff);
}

#[test]
fn detects_nan_patterns() {
    assert!(nan_bits(f32::NAN.to_bits()));
    assert!(nan_bits(0x7fc0_0001));
    assert!(nan_bits(0xffc0_0000));
    assert!(!nan_bits(f32::INFINITY.to_bits()));
    assert!(!nan_bits(f32::NEG_INFINITY.to_bits()));
    assert!(!nan_bits(1.5f32.to_bits()));
}
