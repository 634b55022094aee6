use bazaar::decimal::{Decimal, Rounding};

fn parts(d: Decimal) -> (i128, u32) {
    (d.mantissa(), d.scale())
}

#[test]
fn decimal_sum_of_two_numbers() {
    let a = Decimal::new(15, 1);
    let b = Decimal::new(25, 2);
    assert_eq!(a.checked_add(b), Some(Decimal::new(175, 2)));
    assert_eq!(parts(a.checked_add(b).unwrap()), (175, 2));
}

#[test]
fn decimal_difference_product_and_quotient() {
    let a = Decimal::new(15, 1);
    let b = Decimal::new(25, 2);
    assert_eq!(parts(a.checked_sub(b).unwrap()), (125, 2));
    assert_eq!(parts(a.checked_mul(b).unwrap()), (375, 3));
    assert_eq!(a.checked_div(b), Some(Decimal::new(6, 0)));
    assert_eq!(Decimal::new(1, 0).checked_div(Decimal::new(8, 0)), Some(Decimal::new(125, 3)));
}

#[test]
fn decimal_zero_operands() {
    let x = Decimal::new(150, 2);
    let zero = Decimal::new(0, 3);
    assert_eq!(parts(zero.checked_add(x).unwrap()), (150, 2));
    assert_eq!(parts(x.checked_add(zero).unwrap()), (150, 2));
    assert_eq!(parts(zero.checked_add(Decimal::new(0, 1)).unwrap()), (0, 1));
    assert_eq!(parts(x.checked_sub(zero).unwrap()), (150, 2));
    assert_eq!(parts(zero.checked_sub(x).unwrap()), (-150, 2));
    assert_eq!(parts(zero.checked_sub(Decimal::new(0, 1)).unwrap()), (0, 1));
    assert_eq!(parts(x.checked_mul(zero).unwrap()), (0, 0));
    assert_eq!(parts(zero.checked_mul(x).unwrap()), (0, 0));
    assert_eq!(parts(zero.checked_div(x).unwrap()), (0, 0));
    assert_eq!(x.checked_div(zero), None);
    assert_eq!(zero.checked_div(zero), None);
}

#[test]
fn decimal_overflow_is_none() {
    let max = Decimal::try_new(79228162514264337593543950335, 0).unwrap();
    assert_eq!(max.checked_add(Decimal::new(1, 0)), None);
    assert_eq!(max.neg().checked_sub(Decimal::new(1, 0)), None);
    assert_eq!(max.checked_mul(Decimal::new(2, 0)), None);
    assert_eq!(max.checked_div(Decimal::new(1, 1)), None);
    assert!(Decimal::try_new(79228162514264337593543950336, 0).is_none());
    assert!(Decimal::try_new(-79228162514264337593543950336, 0).is_none());
    assert!(Decimal::try_new(1, 29).is_none());
    assert!(Decimal::try_new(-79228162514264337593543950335, 28).is_some());
}

#[test]
fn decimal_equality_ignores_scale() {
    assert_eq!(Decimal::new(10, 1), Decimal::new(1, 0));
    assert_ne!(Decimal::new(11, 1), Decimal::new(1, 0));
    assert!(Decimal::new(0, 5).same(&Decimal::zero()));
}

#[test]
fn decimal_order() {
    let a = Decimal::new(-15, 1);
    let b = Decimal::new(25, 2);
    assert!(a.lt(&b));
    assert!(!b.lt(&a));
    assert!(a.le(&a));
    assert!(b.gt(&a));
    assert!(b.ge(&b));
    assert!(!a.lt(&Decimal::new(-150, 2)));
    assert_eq!(parts(a.max(b)), (25, 2));
    assert_eq!(parts(b.max(a)), (25, 2));
    // Of two that are the same number the first is kept.
    assert_eq!(parts(Decimal::new(10, 1).max(Decimal::new(1, 0))), (10, 1));
    let big = Decimal::try_new(79228162514264337593543950335, 0).unwrap();
    let tiny = Decimal::try_new(1, 28).unwrap();
    assert!(tiny.lt(&big));
    assert!(big.neg().lt(&tiny));
}

#[test]
fn decimal_sign_functions() {
    let a = Decimal::new(-15, 1);
    assert_eq!(parts(a.neg()), (15, 1));
    assert_eq!(parts(a.abs()), (15, 1));
    assert_eq!(parts(a.signum()), (-1, 0));
    assert_eq!(parts(Decimal::new(0, 4).signum()), (0, 0));
    assert_eq!(parts(Decimal::new(7, 4).signum()), (1, 0));
    assert!(Decimal::new(0, 4).is_zero());
    assert!(!a.is_zero());
}

#[test]
fn decimal_rounds_towards_positive_infinity() {
    let r = Decimal::new(68, 1).round_dp_with_strategy(0, Rounding::Ceiling);
    assert_eq!(parts(r), (7, 0));
    let r = Decimal::new(-68, 1).round_dp_with_strategy(0, Rounding::Ceiling);
    assert_eq!(parts(r), (-6, 0));
    let r = Decimal::new(60, 1).round_dp_with_strategy(0, Rounding::Ceiling);
    assert_eq!(parts(r), (6, 0));
    let r = Decimal::new(-3, 1).round_dp_with_strategy(0, Rounding::Ceiling);
    assert_eq!(parts(r), (0, 0));
    let r = Decimal::new(12341, 4).round_dp_with_strategy(2, Rounding::Ceiling);
    assert_eq!(parts(r), (124, 2));
}

#[test]
fn decimal_rounds_half_to_even() {
    assert_eq!(parts(Decimal::new(65, 1).round_dp(0)), (6, 0));
    assert_eq!(parts(Decimal::new(75, 1).round_dp(0)), (8, 0));
    assert_eq!(parts(Decimal::new(-65, 1).round_dp(0)), (-6, 0));
    assert_eq!(parts(Decimal::new(-75, 1).round_dp(0)), (-8, 0));
    assert_eq!(parts(Decimal::new(651, 2).round_dp(0)), (7, 0));
    assert_eq!(parts(Decimal::new(649, 2).round_dp(0)), (6, 0));
    assert_eq!(parts(Decimal::new(123456789125, 11).round_dp(8)), (123456789, 8));
    assert_eq!(parts(Decimal::new(123456789135, 11).round_dp(8)), (123456789, 8));
    assert_eq!(parts(Decimal::new(123456789500, 11).round_dp(8)), (123456790, 8));
    // Fewer digits than asked for: nothing changes.
    assert_eq!(parts(Decimal::new(125, 2).round_dp(8)), (125, 2));
    assert_eq!(parts(Decimal::new(0, 9).round_dp(8)), (0, 8));
}

#[test]
fn decimal_bytes_round_trip() {
    let d = Decimal::new(-15, 1);
    let bytes = d.serialize();
    assert_eq!(bytes, [0, 0, 1, 128, 15, 0, 0, 0, 0, 0, 0, 0, 0, 0, 0, 0]);
    assert_eq!(parts(Decimal::deserialize(bytes)), (-15, 1));
    let big = Decimal::try_new(79228162514264337593543950335, 28).unwrap();
    assert_eq!(parts(Decimal::deserialize(big.serialize())), (79228162514264337593543950335, 28));
    assert_eq!(parts(Decimal::deserialize([0u8; 16])), (0, 0));
}

#[test]
fn decimal_as_text() {
    assert_eq!(Decimal::new(-15, 1).to_string(), "-1.5");
    assert_eq!(Decimal::new(100, 2).to_string(), "1.00");
    assert_eq!(Decimal::new(5, 3).to_string(), "0.005");
    assert_eq!(Decimal::new(1000, 0).to_string(), "1000");
}

struct Numbers(u64);

impl Numbers {
    fn next(&mut self) -> u64 {
        self.0 = self.0.wrapping_mul(6364136223846793005).wrapping_add(1442695040888963407);
        self.0 >> 11
    }

    fn decimal(&mut self) -> Decimal {
        let wide = ((self.next() as u128) << 50) ^ (self.next() as u128);
        let bits = self.next() % 97;
        let magnitude = if bits == 0 { 0 } else { wide & ((1u128 << bits) - 1) } as i128;
        let mantissa = if self.next() % 2 == 0 { magnitude } else { -magnitude };
        Decimal::try_new(mantissa, (self.next() % 29) as u32).unwrap()
    }
}

fn rounded(m: i128, e: u32, dp: u32, rounding: Rounding) -> (i128, u32) {
    if e <= dp {
        return (m, e);
    }
    let p = 10i128.pow(e - dp);
    let mag = m.abs();
    let (q, rem) = (mag / p, mag % p);
    let up = match rounding {
        Rounding::HalfEven => 2 * rem > p || (2 * rem == p && q % 2 == 1),
        Rounding::Ceiling => m > 0 && rem != 0,
    };
    let q = if up { q + 1 } else { q };
    (if m < 0 { -q } else { q }, dp)
}

#[test]
fn decimal_rounding_follows_the_rule_on_many_numbers() {
    let mut numbers = Numbers(2021);
    for _ in 0..20000 {
        let d = numbers.decimal();
        let dp = (numbers.next() % 30) as u32;
        for rounding in [Rounding::HalfEven, Rounding::Ceiling] {
            let r = d.round_dp_with_strategy(dp, rounding);
            assert_eq!(parts(r), rounded(d.mantissa(), d.scale(), dp, rounding), "{:?} to {}", d, dp);
        }
    }
}

#[test]
fn decimal_bytes_read_back_on_many_numbers() {
    let mut numbers = Numbers(7);
    for _ in 0..20000 {
        let d = numbers.decimal();
        assert_eq!(parts(Decimal::deserialize(d.serialize())), parts(d));
    }
}

#[test]
fn decimal_order_and_zero_operands_on_many_numbers() {
    let mut numbers = Numbers(11);
    for _ in 0..20000 {
        let a = numbers.decimal();
        let b = numbers.decimal();
        let zero = Decimal::new(0, (numbers.next() % 29) as u32);
        // On one scale the order is that of the mantissas.
        let c = Decimal::try_new(b.mantissa(), a.scale()).unwrap();
        assert_eq!(a.lt(&c), a.mantissa() < c.mantissa());
        assert_eq!(a.same(&c), a.mantissa() == c.mantissa());
        // A shift of the scale by one is a factor of ten.
        if a.scale() < 28 && a.mantissa().abs() < (1i128 << 92) {
            let shifted = Decimal::try_new(a.mantissa() * 10, a.scale() + 1).unwrap();
            assert!(a.same(&shifted));
            assert!(!a.lt(&shifted) && !shifted.lt(&a));
        }
        assert_eq!(a.lt(&b), !b.le(&a));
        if a.is_zero() {
            continue;
        }
        assert_eq!(parts(zero.checked_add(a).unwrap()), parts(a));
        assert_eq!(parts(a.checked_add(zero).unwrap()), parts(a));
        assert_eq!(parts(a.checked_sub(zero).unwrap()), parts(a));
        assert_eq!(parts(zero.checked_sub(a).unwrap()), parts(a.neg()));
        assert_eq!(parts(a.checked_mul(zero).unwrap()), (0, 0));
        assert_eq!(parts(zero.checked_div(a).unwrap()), (0, 0));
        assert_eq!(a.checked_div(zero), None);
    }
}
