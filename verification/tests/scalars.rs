use neltex::order::falling;
use neltex::scalar::Position;
use neltex::scalar::Scalar;

fn num(x: f64) -> Scalar {
    Scalar { bits: x.to_bits() }
}

fn samples() -> Vec<f64> {
    vec![
        f64::NAN,
        -f64::NAN,
        f64::INFINITY,
        f64::NEG_INFINITY,
        0.0,
        -0.0,
        1.0,
        -1.0,
        0.5,
        -0.5,
        0.15,
        0.4,
        1e-310,
        -1e-310,
        f64::MAX,
        f64::MIN,
        f64::MIN_POSITIVE,
        3.25,
        -3.25,
    ]
}

#[test]
fn lt_agrees_with_the_machine() {
    for a in samples() {
        for b in samples() {
            assert_eq!(num(a).lt(num(b)), a < b, "{} < {}", a, b);
        }
        assert_eq!(num(a).is_nan(), a.is_nan());
    }
}

#[test]
fn clamp_agrees_with_the_machine() {
    for a in samples() {
        let r = num(a).clamp(num(-1.0), num(1.0));
        assert_eq!(r.bits, a.clamp(-1.0, 1.0).to_bits());
        let s = num(a).clamp(num(0.15), num(0.40));
        assert_eq!(s.bits, a.clamp(0.15, 0.40).to_bits());
    }
}

#[test]
fn max_agrees_with_the_machine() {
    for a in samples() {
        let r = num(a).max(num(0.5));
        assert_eq!(r.bits, a.max(0.5).to_bits());
    }
    assert_eq!(num(0.25).max(num(f64::NAN)).bits, (0.25f64).to_bits());
}

#[test]
fn position_is_clamped() {
    assert_eq!(Position::at(num(2.5)).get().bits, (1.0f64).to_bits());
    assert_eq!(Position::at(num(-7.0)).get().bits, (-1.0f64).to_bits());
    assert_eq!(Position::at(num(0.346)).get().bits, (0.346f64).to_bits());
    assert_eq!(Position::at(Position::at(num(9.0)).get()).get().bits, (1.0f64).to_bits());
    assert!(Position::at(num(f64::NAN)).get().is_nan());
}

#[test]
fn falling_puts_the_largest_first() {
    let keys = vec![num(0.1), num(0.9), num(-0.5), num(0.9), num(0.3)];
    assert_eq!(falling(&keys), vec![1, 3, 4, 0, 2]);
    assert_eq!(falling(&Vec::new()), Vec::<usize>::new());
}

#[test]
fn falling_keeps_the_two_zeros_in_place() {
    let keys = vec![num(0.0), num(-0.0), num(0.0)];
    assert_eq!(falling(&keys), vec![0, 1, 2]);
}
