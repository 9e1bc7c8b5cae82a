use sloth::shared::SharedVariance;
use sloth::variance::{
    parameter_name, parameter_text, parameter_value, requested_store, set_parameter_value,
    VarianceParameter,
    DEFAULT_VARIANCE, VARIANCE_FLOOR,
};

#[test]
fn default_is_five_milliseconds() {
    assert_eq!(DEFAULT_VARIANCE, 5_000_000);
    assert_eq!(VarianceParameter::new().get(), 5_000_000);
    assert_eq!(VarianceParameter::default().get(), 5_000_000);
}

#[test]
fn set_zero_then_get_is_positive() {
    let mut p = VarianceParameter::new();
    p.set(0);
    assert!(p.get() > 0);
    assert_eq!(p.get(), VARIANCE_FLOOR);
}

#[test]
fn set_negative_then_get_is_positive() {
    let mut p = VarianceParameter::new();
    p.set(-5);
    assert!(p.get() > 0);
    assert_eq!(p.get(), 1);
    p.set(i64::MIN);
    assert_eq!(p.get(), 1);
}

#[test]
fn set_keeps_values_at_or_above_the_floor() {
    let mut p = VarianceParameter::new();
    p.set(1);
    assert_eq!(p.get(), 1);
    p.set(2);
    assert_eq!(p.get(), 2);
    p.set(123_456_789);
    assert_eq!(p.get(), 123_456_789);
    p.set(i64::MAX);
    assert_eq!(p.get(), 9_223_372_036_854_775_807);
}

#[test]
fn display_parts_round_to_hundredths_of_a_millisecond() {
    let mut p = VarianceParameter::new();
    assert_eq!(p.display_parts(), (5, 0));
    p.set(5_004_999);
    assert_eq!(p.display_parts(), (5, 0));
    p.set(5_005_000);
    assert_eq!(p.display_parts(), (5, 1));
    p.set(1);
    assert_eq!(p.display_parts(), (0, 0));
    p.set(12_345_678);
    assert_eq!(p.display_parts(), (12, 35));
    p.set(999_995_000);
    assert_eq!(p.display_parts(), (1000, 0));
    p.set(i64::MAX);
    assert_eq!(p.display_parts(), (9_223_372_036_854, 78));
}

#[test]
fn the_one_parameter_is_called_variance() {
    assert_eq!(parameter_name(0), "Variance");
    assert_eq!(parameter_name(1), "");
    assert_eq!(parameter_name(-1), "");
    assert_eq!(parameter_name(i32::MAX), "");
}

#[test]
fn parameter_value_by_index() {
    let mut p = VarianceParameter::new();
    assert_eq!(parameter_value(&p, 0), 5_000_000);
    assert_eq!(parameter_value(&p, 1), 0);
    assert_eq!(parameter_value(&p, -3), 0);
    set_parameter_value(&mut p, 0, 250);
    assert_eq!(parameter_value(&p, 0), 250);
    set_parameter_value(&mut p, 1, 999);
    assert_eq!(parameter_value(&p, 0), 250);
    set_parameter_value(&mut p, 0, -1);
    assert_eq!(parameter_value(&p, 0), 1);
}

#[test]
fn parameter_text_is_milliseconds_with_two_decimals() {
    let mut p = VarianceParameter::new();
    assert_eq!(parameter_text(&p, 0), "5.00 ms");
    assert_eq!(parameter_text(&p, 1), "");
    assert_eq!(parameter_text(&p, -1), "");
    p.set(0);
    assert_eq!(parameter_text(&p, 0), "0.00 ms");
    p.set(4_999);
    assert_eq!(parameter_text(&p, 0), "0.00 ms");
    p.set(5_000);
    assert_eq!(parameter_text(&p, 0), "0.01 ms");
    p.set(12_345_678);
    assert_eq!(parameter_text(&p, 0), "12.35 ms");
    p.set(90_000);
    assert_eq!(parameter_text(&p, 0), "0.09 ms");
    p.set(100_000);
    assert_eq!(parameter_text(&p, 0), "0.10 ms");
    p.set(999_995_000);
    assert_eq!(parameter_text(&p, 0), "1000.00 ms");
    p.set(i64::MAX);
    assert_eq!(parameter_text(&p, 0), "9223372036854.78 ms");
}

#[test]
fn from_stored_raises_zero_to_the_floor() {
    assert_eq!(VarianceParameter::from_stored(0).get(), 1);
    assert_eq!(VarianceParameter::from_stored(1).get(), 1);
    assert_eq!(VarianceParameter::from_stored(77).get(), 77);
    assert_eq!(VarianceParameter::from_stored(u64::MAX).get(), u64::MAX);
}

#[test]
fn shared_parameter_starts_at_the_default() {
    let shared = SharedVariance::new();
    assert_eq!(shared.get().get(), 5_000_000);
}

#[test]
fn shared_set_zero_then_get_is_positive() {
    let shared = SharedVariance::new();
    shared.set(0);
    assert!(shared.get().get() > 0);
    assert_eq!(shared.get().get(), 1);
    shared.set(-5);
    assert!(shared.get().get() > 0);
    assert_eq!(shared.get().get(), 1);
}

#[test]
fn shared_set_is_seen_by_get() {
    let shared = SharedVariance::new();
    shared.set(2_500_000);
    assert_eq!(shared.get().get(), 2_500_000);
    shared.set(i64::MAX);
    assert_eq!(shared.get().get(), 9_223_372_036_854_775_807);
}

#[test]
fn only_the_variance_index_asks_for_a_store() {
    assert_eq!(requested_store(0, 250), Some(250));
    assert_eq!(requested_store(0, 0), Some(1));
    assert_eq!(requested_store(0, -9), Some(1));
    assert_eq!(requested_store(0, i64::MAX), Some(9_223_372_036_854_775_807));
    assert_eq!(requested_store(1, 250), None);
    assert_eq!(requested_store(-1, 0), None);
}
