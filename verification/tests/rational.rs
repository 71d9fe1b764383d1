use tenutoc::Rational;

#[test]
fn new_reduces_to_lowest_terms() {
    assert_eq!(Rational::new(12, 18), Rational { num: 2, den: 3 });
    assert_eq!(Rational::new(7, 3), Rational { num: 7, den: 3 });
    assert_eq!(Rational::new(1920, 1920), Rational { num: 1, den: 1 });
}

#[test]
fn new_of_zero_is_zero_over_one() {
    assert_eq!(Rational::new(0, 5), Rational { num: 0, den: 1 });
}

#[test]
fn new_is_invariant_under_scaling() {
    let base = Rational::new(3, 9);
    assert_eq!(base, Rational { num: 1, den: 3 });
    for k in 1..50u64 {
        assert_eq!(Rational::new(3 * k, 9 * k), base);
    }
}

#[test]
fn checked_new_rejects_zero_denominator() {
    assert_eq!(Rational::checked_new(1, 0), None);
    assert_eq!(Rational::checked_new(2, 4), Some(Rational { num: 1, den: 2 }));
}

#[test]
fn to_ticks_follows_the_formula() {
    // 5/16 of a whole note: 5 * 4 * 1920 / 16
    assert_eq!(Rational::new(5, 16).to_ticks(1920), 2400);
    // a whole note
    assert_eq!(Rational::new(1, 1).to_ticks(1920), 7680);
    // another resolution
    assert_eq!(Rational::new(1, 4).to_ticks(480), 480);
}

#[test]
fn to_ticks_rounds_down() {
    // 7680 / 7 = 1097.14...
    assert_eq!(Rational::new(1, 7).to_ticks(1920), 1097);
}

#[test]
fn to_ticks_uses_wide_intermediates() {
    // num * 4 * ppq leaves 64 bits, the quotient does not.
    let r = Rational { num: u64::MAX / 2, den: u64::MAX / 2 };
    assert_eq!(r.to_ticks(1920), 7680);
}

#[test]
fn checked_to_ticks_reports_what_does_not_fit() {
    assert_eq!(Rational { num: u64::MAX, den: 1 }.checked_to_ticks(1920), None);
    assert_eq!(Rational { num: 1, den: 0 }.checked_to_ticks(1920), None);
    assert_eq!(Rational { num: 3, den: 8 }.checked_to_ticks(1920), Some(2880));
}
