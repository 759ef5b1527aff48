use animation_graph::number::Number;

fn num(value: f32) -> Number {
    Number::from_bits(value.to_bits())
}

fn samples() -> Vec<f32> {
    vec![
        0.0,
        -0.0,
        1.0,
        -1.0,
        0.5,
        -0.5,
        1.5,
        2.0,
        -2.0,
        3.25,
        1.0e-40,
        -1.0e-40,
        f32::MIN_POSITIVE,
        f32::MAX,
        f32::MIN,
        f32::EPSILON,
        f32::INFINITY,
        f32::NEG_INFINITY,
        f32::NAN,
        -f32::NAN,
        f32::from_bits(0x7f80_0001),
        f32::from_bits(0xffff_ffff),
    ]
}

#[test]
fn bits_round_trip() {
    assert_eq!(num(1.0).to_bits(), 0x3f80_0000);
    assert_eq!(Number::from_bits(0xc000_0000).to_bits(), (-2.0f32).to_bits());
}

#[test]
fn comparisons_agree_with_the_hardware() {
    for a in samples() {
        for b in samples() {
            assert_eq!(num(a).less_than(num(b)), a < b, "{} < {}", a, b);
            assert_eq!(num(a).greater_than(num(b)), a > b, "{} > {}", a, b);
            assert_eq!(num(a).equal_to(num(b)), a == b, "{} == {}", a, b);
        }
        assert_eq!(num(a).is_nan(), a.is_nan(), "{}", a);
    }
}

#[test]
fn zeros_are_equal_and_not_ordered() {
    assert!(num(0.0).equal_to(num(-0.0)));
    assert!(!num(-0.0).less_than(num(0.0)));
    assert!(!num(0.0).greater_than(num(-0.0)));
}

#[test]
fn nan_compares_false_with_itself() {
    let nan = num(f32::NAN);
    assert!(nan.is_nan());
    assert!(!nan.equal_to(nan));
    assert!(!nan.less_than(nan));
    assert!(!nan.greater_than(nan));
    assert!(!nan.less_than(num(f32::INFINITY)));
}

#[test]
fn negative_numbers_order_by_magnitude_reversed() {
    assert!(num(-2.0).less_than(num(-1.0)));
    assert!(num(-1.0).greater_than(num(-2.0)));
    assert!(num(f32::NEG_INFINITY).less_than(num(f32::MIN)));
    assert!(num(f32::MAX).less_than(num(f32::INFINITY)));
}
