//! The bounded-value constructors accept exactly their ranges, and
//! `max_after` steps to the next representable double.

use necsim::ClosedUnitF64;
use necsim::NonNegativeF64;
use necsim::OffByOneU64;
use necsim::OpenClosedUnitF64;
use necsim::PositiveF64;

const SAMPLES: &[f64] = &[
    0.0,
    -0.0,
    f64::MIN_POSITIVE,
    5e-324,
    0.25,
    0.5,
    1.0 - f64::EPSILON / 2.0,
    1.0,
    1.0 + f64::EPSILON,
    1.5,
    1e300,
    f64::MAX,
    f64::INFINITY,
    -5e-324,
    -0.25,
    -1.0,
    -1e300,
    f64::NEG_INFINITY,
    f64::NAN,
    -f64::NAN,
];

#[test]
fn positive_constructor_is_total_and_exact() {
    for &x in SAMPLES {
        let expected = x > 0.0 && !x.is_nan();
        assert_eq!(PositiveF64::new(x.to_bits()).is_ok(), expected, "{x}");
        if expected {
            assert_eq!(PositiveF64::new(x.to_bits()).unwrap().get(), x.to_bits());
        }
    }
}

#[test]
fn non_negative_constructor_is_total_and_exact() {
    for &x in SAMPLES {
        let expected = x >= 0.0 && !x.is_nan();
        assert_eq!(NonNegativeF64::new(x.to_bits()).is_ok(), expected, "{x}");
        if expected {
            // -0.0 is canonicalised to +0.0; everything else is kept
            let stored = NonNegativeF64::new(x.to_bits()).unwrap().get();
            if x == 0.0 {
                assert_eq!(stored, 0);
            } else {
                assert_eq!(stored, x.to_bits());
            }
        }
    }
}

#[test]
fn closed_unit_constructor_is_total_and_exact() {
    for &x in SAMPLES {
        let expected = (0.0..=1.0).contains(&x);
        assert_eq!(ClosedUnitF64::new(x.to_bits()).is_ok(), expected, "{x}");
    }
}

#[test]
fn open_closed_unit_constructor_is_total_and_exact() {
    for &x in SAMPLES {
        let expected = x > 0.0 && x <= 1.0;
        assert_eq!(OpenClosedUnitF64::new(x.to_bits()).is_ok(), expected, "{x}");
    }
}

#[test]
fn off_by_one_accepts_one_to_two_to_the_sixty_four() {
    assert!(OffByOneU64::new(0).is_err());
    assert_eq!(OffByOneU64::new(1).unwrap().get(), 1);
    assert_eq!(OffByOneU64::new(42).unwrap().get(), 42);
    assert_eq!(
        OffByOneU64::new(1_u128 << 64).unwrap().get(),
        1_u128 << 64
    );
    assert!(OffByOneU64::new((1_u128 << 64) + 1).is_err());
    assert_eq!(OffByOneU64::one().get(), 1);
}

fn nn(x: f64) -> NonNegativeF64 {
    NonNegativeF64::new(x.to_bits()).unwrap()
}

fn max_after_bits(before: f64, value: f64) -> u64 {
    PositiveF64::max_after(nn(before), nn(value)).get()
}

#[test]
fn max_after_returns_value_or_next_representable() {
    // the candidate wins whenever it is strictly greater
    assert_eq!(max_after_bits(1.0, 2.0), 2.0_f64.to_bits());
    // an equal or smaller candidate yields the successor of `before`
    assert_eq!(max_after_bits(1.0, 1.0), 1.0_f64.to_bits() + 1);
    assert_eq!(max_after_bits(1.0, 0.5), 1.0_f64.to_bits() + 1);
    assert_eq!(max_after_bits(0.0, 0.0), 1_u64);
    // an infinite `before` saturates
    assert_eq!(
        max_after_bits(f64::INFINITY, 3.0),
        f64::INFINITY.to_bits()
    );

    // the successor of a finite double is the numerically next double
    let before = nn(1.0);
    let after = PositiveF64::max_after(before, nn(0.25));
    assert_eq!(f64::from_bits(after.get()), 1.0 + f64::EPSILON);

    // constants
    assert_eq!(PositiveF64::one().get(), 1.0_f64.to_bits());
    assert_eq!(PositiveF64::infinity().get(), f64::INFINITY.to_bits());
    assert_eq!(NonNegativeF64::zero().get(), 0);
    assert_eq!(ClosedUnitF64::one().get(), 1.0_f64.to_bits());
}
