//! The arithmetic against that of the machine.

use boxlite_cli::number::double::Double;
use boxlite_cli::number::single::Single;
use boxlite_cli::render::{
    align_left, align_right, decimal_text, format_fixed, format_signed, repeated,
};

fn d(x: f64) -> Double {
    Double::from_bits(x.to_bits())
}

fn f(x: Double) -> f64 {
    f64::from_bits(x.to_bits())
}

fn same(x: Double, y: f64) -> bool {
    if y.is_nan() {
        x.is_nan()
    } else {
        x.to_bits() == y.to_bits()
    }
}

fn samples() -> Vec<f64> {
    let mut v = vec![
        0.0,
        -0.0,
        1.0,
        -1.0,
        0.1,
        0.2,
        0.3,
        1.0 / 3.0,
        2.5,
        1024.0,
        1e-9,
        1e300,
        -1e300,
        1e-300,
        f64::MIN_POSITIVE,
        f64::MIN_POSITIVE / 3.0,
        5e-324,
        -5e-324,
        f64::MAX,
        f64::MIN,
        f64::INFINITY,
        f64::NEG_INFINITY,
        f64::NAN,
        9007199254740991.0,
        9007199254740993.0,
        4503599627370497.5,
    ];
    let mut state: u64 = 0x9e37_79b9_7f4a_7c15;
    for _ in 0..60 {
        state ^= state << 13;
        state ^= state >> 7;
        state ^= state << 17;
        v.push(f64::from_bits(state));
    }
    for _ in 0..40 {
        state ^= state << 13;
        state ^= state >> 7;
        state ^= state << 17;
        // Numbers close to one another, where sums cancel and quotients are near one.
        v.push(f64::from_bits(0x3ff0_0000_0000_0000 | (state >> 12)));
    }
    v
}

#[test]
fn sums_and_differences_are_those_of_the_machine() {
    for &x in &samples() {
        for &y in &samples() {
            assert!(same(d(x).add(d(y)), x + y), "{x:?} + {y:?}");
            assert!(same(d(x).sub(d(y)), x - y), "{x:?} - {y:?}");
        }
    }
}

#[test]
fn products_and_quotients_are_those_of_the_machine() {
    for &x in &samples() {
        for &y in &samples() {
            assert!(same(d(x).mul(d(y)), x * y), "{x:?} * {y:?}");
            assert!(same(d(x).div(d(y)), x / y), "{x:?} / {y:?}");
        }
    }
}

#[test]
fn square_roots_are_those_of_the_machine() {
    for &x in &samples() {
        assert!(same(d(x).sqrt(), x.sqrt()), "sqrt {x:?}");
        assert!(same(d(x.abs()).sqrt(), x.abs().sqrt()), "sqrt {x:?}");
    }
}

#[test]
fn order_is_that_of_the_machine() {
    for &x in &samples() {
        for &y in &samples() {
            assert_eq!(d(x).lt(d(y)), x < y);
            assert_eq!(d(x).equals(d(y)), x == y);
        }
        assert_eq!(d(x).is_nan(), x.is_nan());
        assert!(same(d(x).neg(), -x));
    }
}

#[test]
fn integers_are_converted_to_the_nearest_number() {
    for n in [0u64, 1, 2, 3, 1000, 1 << 52, (1 << 53) - 1, 1 << 53, (1 << 53) + 1, (1 << 53) + 3] {
        assert!(same(Double::from_u64(n), n as f64));
    }
    for n in [u64::MAX, u64::MAX - 1023, u64::MAX - 1024, 0x7fff_ffff_ffff_fe00] {
        assert!(same(Double::from_u64(n), n as f64));
    }
    for n in [0i64, -1, 1, i64::MIN, i64::MAX, -9007199254740993] {
        assert!(same(Double::from_i64(n), n as f64));
    }
}

#[test]
fn single_precision_is_that_of_the_machine() {
    let v: Vec<f32> = vec![
        0.0, 1.0, 0.1, 3.3, 1e-40, 1e38, 16777217.0, 99.97, 0.3, f32::MAX, f32::INFINITY,
    ];
    for &x in &v {
        for &y in &v {
            let (a, b) = (Single::from_bits(x.to_bits()), Single::from_bits(y.to_bits()));
            let sum = (x + y) as f64;
            assert!(same(a.add(b).to_double(), sum), "{x:?} + {y:?}");
            assert!(same(a.div(b).to_double(), (x / y) as f64), "{x:?} / {y:?}");
        }
    }
    for n in [0u64, 1, 7, 16777217, 16777219, u64::MAX] {
        assert!(same(Single::from_u64(n).to_double(), (n as f32) as f64));
    }
}

#[test]
fn decimals_are_rounded_to_even() {
    assert_eq!(format_fixed(d(0.125), 2), "0.12");
    assert_eq!(format_fixed(d(0.375), 2), "0.38");
    assert_eq!(format_fixed(d(0.5), 0), "0");
    assert_eq!(format_fixed(d(1.5), 0), "2");
    assert_eq!(format_fixed(d(2.5), 0), "2");
    assert_eq!(format_fixed(d(0.25), 1), "0.2");
    assert_eq!(format_fixed(d(-0.0), 1), "-0.0");
    assert_eq!(format_fixed(d(99.95), 1), format!("{:.1}", 99.95));
}

#[test]
fn decimals_are_those_of_the_formatter() {
    for &x in &samples() {
        assert_eq!(format_fixed(d(x), 0), format!("{x:.0}"));
        assert_eq!(format_fixed(d(x), 1), format!("{x:.1}"));
        assert_eq!(format_fixed(d(x), 2), format!("{x:.2}"));
        assert_eq!(format_fixed(d(x), 6), format!("{x:.6}"));
        assert_eq!(format_signed(d(x), 1), format!("{x:+.1}"));
    }
}

#[test]
fn columns_are_padded_with_blanks() {
    assert_eq!(align_right("12", 5), format!("{:>5}", "12"));
    assert_eq!(align_left("12", 5), format!("{:<5}", "12"));
    assert_eq!(align_left("Δ%", 5), format!("{:<5}", "Δ%"));
    assert_eq!(align_right("abcdef", 3), "abcdef");
    assert_eq!(repeated('-', 4), "----");
    assert_eq!(decimal_text(u64::MAX), "18446744073709551615");
    assert_eq!(decimal_text(0), "0");
}

#[test]
fn law_integers_are_exact_on_values() {
    for n in [0u64, 1, 1023, 1024, 1 << 30, 1 << 53] {
        assert_eq!(f(Double::from_u64(n)) as u64, n);
    }
    assert!(Double::from_u64(1023).lt(Double::from_u64(1024)));
}
