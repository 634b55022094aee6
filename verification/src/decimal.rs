use vstd::prelude::*;

verus! {

/// Largest number of fractional digits a decimal can carry.
pub const MAX_SCALE: u32 = 28;

/// Exclusive bound on the magnitude of a mantissa: two to the power 96.
pub const MANTISSA_LIMIT: i128 = 79228162514264337593543950336;

/// Ten to the power `n`.
pub open spec fn pow10(n: nat) -> int
    decreases n,
{
    if n == 0 {
        1
    } else {
        10 * pow10((n - 1) as nat)
    }
}

/// The mathematical content of a decimal: the number `m / 10^e`.
pub struct Dec {
    pub m: int,
    pub e: nat,
}

/// What `rust_decimal` returns for the sum of two non-zero decimals, `None` on overflow.
pub uninterp spec fn decimal_sum(m1: int, e1: nat, m2: int, e2: nat) -> Option<(int, nat)>;

/// What `rust_decimal` returns for the difference of two non-zero decimals, `None` on overflow.
pub uninterp spec fn decimal_difference(m1: int, e1: nat, m2: int, e2: nat) -> Option<(int, nat)>;

/// What `rust_decimal` returns for the product of two non-zero decimals, `None` on overflow.
pub uninterp spec fn decimal_product(m1: int, e1: nat, m2: int, e2: nat) -> Option<(int, nat)>;

/// What `rust_decimal` returns for the quotient of two non-zero decimals, `None` on overflow.
pub uninterp spec fn decimal_quotient(m1: int, e1: nat, m2: int, e2: nat) -> Option<(int, nat)>;

/// The sixteen bytes `rust_decimal` serialises a decimal to.
pub uninterp spec fn decimal_bytes(m: int, e: nat) -> Seq<u8>;

/// The decimal `rust_decimal` reads from sixteen bytes.
pub uninterp spec fn decimal_from_bytes(bytes: Seq<u8>) -> (int, nat);

/// The text `rust_decimal` writes a decimal as.
pub uninterp spec fn decimal_text(m: int, e: nat) -> Seq<char>;

/// How a decimal is rounded when digits are dropped.
#[derive(Clone, Copy, Debug, PartialEq, Eq, Structural)]
pub enum Rounding {
    /// To the nearest neighbour, a tie going to the even one.
    HalfEven,
    /// Towards positive infinity.
    Ceiling,
}

impl Dec {
    pub open spec fn wf(self) -> bool {
        -MANTISSA_LIMIT < self.m < MANTISSA_LIMIT && self.e <= MAX_SCALE
    }

    pub open spec fn zero() -> Dec {
        Dec { m: 0, e: 0 }
    }

    pub open spec fn one() -> Dec {
        Dec { m: 1, e: 0 }
    }

    /// The value in units of `10^-28`, a whole number for every well-formed decimal.
    pub open spec fn units(self) -> int {
        self.m * pow10((MAX_SCALE - self.e) as nat)
    }

    pub open spec fn is_zero(self) -> bool {
        self.m == 0
    }

    pub open spec fn neg(self) -> Dec {
        Dec { m: -self.m, e: self.e }
    }

    pub open spec fn abs(self) -> Dec {
        Dec { m: if self.m < 0 { -self.m } else { self.m }, e: self.e }
    }

    pub open spec fn signum(self) -> Dec {
        Dec { m: if self.m < 0 { -1 } else if self.m == 0 { 0 } else { 1 }, e: 0 }
    }

    /// Numeric equality: `1.0` and `1.00` are the same number.
    pub open spec fn same(self, other: Dec) -> bool {
        self.units() == other.units()
    }

    pub open spec fn lt(self, other: Dec) -> bool {
        self.units() < other.units()
    }

    pub open spec fn le(self, other: Dec) -> bool {
        self.units() <= other.units()
    }

    pub open spec fn lift(r: Option<(int, nat)>) -> Option<Dec> {
        match r {
            Some((m, e)) => Some(Dec { m, e }),
            None => None,
        }
    }

    /// Checked sum. A zero operand leaves the other one as it is.
    pub open spec fn add(self, other: Dec) -> Option<Dec> {
        if self.m == 0 {
            Some(other)
        } else if other.m == 0 {
            Some(self)
        } else {
            Dec::lift(decimal_sum(self.m, self.e, other.m, other.e))
        }
    }

    /// Checked difference. Taking zero away changes nothing; taking from zero negates.
    pub open spec fn sub(self, other: Dec) -> Option<Dec> {
        if self.m == 0 {
            Some(other.neg())
        } else if other.m == 0 {
            Some(self)
        } else {
            Dec::lift(decimal_difference(self.m, self.e, other.m, other.e))
        }
    }

    /// Checked product. A zero factor gives plain zero.
    pub open spec fn mul(self, other: Dec) -> Option<Dec> {
        if self.m == 0 || other.m == 0 {
            Some(Dec::zero())
        } else {
            Dec::lift(decimal_product(self.m, self.e, other.m, other.e))
        }
    }

    /// Checked quotient. There is none by zero; zero divided is plain zero.
    pub open spec fn div(self, other: Dec) -> Option<Dec> {
        if other.m == 0 {
            None
        } else if self.m == 0 {
            Some(Dec::zero())
        } else {
            Dec::lift(decimal_quotient(self.m, self.e, other.m, other.e))
        }
    }

    /// The decimal with at most `dp` fractional digits that `self` rounds to.
    pub open spec fn round(self, dp: nat, rounding: Rounding) -> Dec {
        if self.e <= dp {
            self
        } else {
            let p = pow10((self.e - dp) as nat);
            let mag = if self.m < 0 { -self.m } else { self.m };
            let q = mag / p;
            let rem = mag % p;
            let up = match rounding {
                Rounding::HalfEven => 2 * rem > p || (2 * rem == p && q % 2 == 1),
                Rounding::Ceiling => self.m > 0 && rem != 0,
            };
            let q2 = if up { q + 1 } else { q };
            Dec { m: if self.m < 0 { -q2 } else { q2 }, e: dp }
        }
    }

    pub open spec fn text(self) -> Seq<char> {
        decimal_text(self.m, self.e)
    }

    pub open spec fn bytes(self) -> Seq<u8> {
        decimal_bytes(self.m, self.e)
    }

    pub open spec fn from_bytes(bytes: Seq<u8>) -> Dec {
        Dec { m: decimal_from_bytes(bytes).0, e: decimal_from_bytes(bytes).1 }
    }

    /// `r` is the sum of `self` and `other` without any rounding.
    pub open spec fn sums_to(self, other: Dec, r: Dec) -> bool {
        r.units() == self.units() + other.units()
    }

    /// `r` is the product of `self` and `other` without any rounding.
    pub open spec fn multiplies_to(self, other: Dec, r: Dec) -> bool {
        r.units() * pow10(MAX_SCALE as nat) == self.units() * other.units()
    }
}

/// A power of ten is positive.
pub proof fn lemma_pow10_positive(n: nat)
    ensures
        pow10(n) > 0,
    decreases n,
{
    if n > 0 {
        lemma_pow10_positive((n - 1) as nat);
    }
}

/// The sign of a decimal is that of its mantissa: negating negates the
/// value, the magnitude is the value's magnitude, and only a zero mantissa is worth zero.
pub proof fn lemma_units_sign(d: Dec)
    ensures
        d.neg().units() == -d.units(),
        d.abs().units() == if d.units() < 0 {
            -d.units()
        } else {
            d.units()
        },
        (d.units() < 0) == (d.m < 0),
        (d.units() == 0) == (d.m == 0),
        (d.units() > 0) == (d.m > 0),
        Dec::zero().units() == 0,
{
    let p = pow10((MAX_SCALE - d.e) as nat);
    lemma_pow10_positive((MAX_SCALE - d.e) as nat);
    assert((-d.m) * p == -(d.m * p)) by (nonlinear_arith);
    assert((d.m * p < 0) == (d.m < 0)) by (nonlinear_arith)
        requires
            p > 0,
    ;
    assert((d.m * p == 0) == (d.m == 0)) by (nonlinear_arith)
        requires
            p > 0,
    ;
    assert((d.m * p > 0) == (d.m > 0)) by (nonlinear_arith)
        requires
            p > 0,
    ;
    assert(0 * pow10((MAX_SCALE - 0) as nat) == 0);
}

/// A fixed-point decimal number `mantissa / 10^scale`, with a mantissa of
/// at most 96 bits and a scale of at most 28.
#[derive(Clone, Copy, Debug)]
pub struct Decimal {
    mantissa: i128,
    scale: u32,
}

impl View for Decimal {
    type V = Dec;

    closed spec fn view(&self) -> Dec {
        Dec { m: self.mantissa as int, e: self.scale as nat }
    }
}

impl Decimal {
    /// The content of an optional decimal.
    pub open spec fn model(r: Option<Decimal>) -> Option<Dec> {
        match r {
            Some(d) => Some(d@),
            None => None,
        }
    }

    #[verifier::type_invariant]
    spec fn inv(self) -> bool {
        -MANTISSA_LIMIT < self.mantissa < MANTISSA_LIMIT && self.scale <= MAX_SCALE
    }

    /// The decimal `num / 10^scale`.
    pub fn new(num: i64, scale: u32) -> (r: Decimal)
        requires
            scale <= MAX_SCALE,
        ensures
            r@ == (Dec { m: num as int, e: scale as nat }),
    {
        Decimal { mantissa: num as i128, scale }
    }

    /// The decimal `num / 10^scale`, if it has one: the mantissa must stay
    /// below 96 bits and the scale within 28.
    pub fn try_new(num: i128, scale: u32) -> (r: Option<Decimal>)
        ensures
            (Dec { m: num as int, e: scale as nat }).wf() <==> r.is_some(),
            r matches Some(d) ==> d@ == (Dec { m: num as int, e: scale as nat }),
    {
        if scale <= MAX_SCALE && -MANTISSA_LIMIT < num && num < MANTISSA_LIMIT {
            Some(Decimal { mantissa: num, scale })
        } else {
            None
        }
    }

    pub fn zero() -> (r: Decimal)
        ensures
            r@ == Dec::zero(),
    {
        Decimal { mantissa: 0, scale: 0 }
    }

    pub fn one() -> (r: Decimal)
        ensures
            r@ == Dec::one(),
    {
        Decimal { mantissa: 1, scale: 0 }
    }

    pub fn mantissa(&self) -> (r: i128)
        ensures
            r == self@.m,
    {
        self.mantissa
    }

    pub fn scale(&self) -> (r: u32)
        ensures
            r == self@.e,
    {
        self.scale
    }

    pub fn is_zero(&self) -> (r: bool)
        ensures
            r == self@.is_zero(),
    {
        self.mantissa == 0
    }

    pub fn neg(&self) -> (r: Decimal)
        ensures
            r@ == self@.neg(),
    {
        proof {
            use_type_invariant(self);
        }
        Decimal { mantissa: -self.mantissa, scale: self.scale }
    }

    pub fn abs(&self) -> (r: Decimal)
        ensures
            r@ == self@.abs(),
    {
        proof {
            use_type_invariant(self);
        }
        if self.mantissa < 0 {
            Decimal { mantissa: -self.mantissa, scale: self.scale }
        } else {
            *self
        }
    }

    /// One, zero or minus one, by the sign of the number.
    pub fn signum(&self) -> (r: Decimal)
        ensures
            r@ == self@.signum(),
    {
        if self.mantissa < 0 {
            Decimal { mantissa: -1, scale: 0 }
        } else if self.mantissa == 0 {
            Decimal { mantissa: 0, scale: 0 }
        } else {
            Decimal { mantissa: 1, scale: 0 }
        }
    }

    /// Sum of two decimals, `None` where it overflows.
    pub fn checked_add(self, other: Decimal) -> (r: Option<Decimal>)
        ensures
            Decimal::model(r) == self@.add(other@),
    {
        proof {
            use_type_invariant(self);
            use_type_invariant(other);
        }
        decimal_checked_add(self, other)
    }

    /// Difference of two decimals, `None` where it overflows.
    pub fn checked_sub(self, other: Decimal) -> (r: Option<Decimal>)
        ensures
            Decimal::model(r) == self@.sub(other@),
    {
        proof {
            use_type_invariant(self);
            use_type_invariant(other);
        }
        decimal_checked_sub(self, other)
    }

    /// Product of two decimals, `None` where it overflows.
    pub fn checked_mul(self, other: Decimal) -> (r: Option<Decimal>)
        ensures
            Decimal::model(r) == self@.mul(other@),
    {
        proof {
            use_type_invariant(self);
            use_type_invariant(other);
        }
        decimal_checked_mul(self, other)
    }

    /// Quotient of two decimals, `None` where the divisor is zero or it overflows.
    pub fn checked_div(self, other: Decimal) -> (r: Option<Decimal>)
        ensures
            Decimal::model(r) == self@.div(other@),
    {
        proof {
            use_type_invariant(self);
            use_type_invariant(other);
        }
        decimal_checked_div(self, other)
    }

    /// Whether `self` is the smaller number.
    pub fn lt(&self, other: &Decimal) -> (r: bool)
        ensures
            r == self@.lt(other@),
    {
        proof {
            use_type_invariant(self);
            use_type_invariant(other);
        }
        decimal_lt(*self, *other)
    }

    pub fn le(&self, other: &Decimal) -> (r: bool)
        ensures
            r == self@.le(other@),
    {
        !other.lt(self)
    }

    pub fn gt(&self, other: &Decimal) -> (r: bool)
        ensures
            r == other@.lt(self@),
    {
        other.lt(self)
    }

    pub fn ge(&self, other: &Decimal) -> (r: bool)
        ensures
            r == other@.le(self@),
    {
        !self.lt(other)
    }

    /// Whether both are the same number, whatever their scales.
    pub fn same(&self, other: &Decimal) -> (r: bool)
        ensures
            r == self@.same(other@),
    {
        !self.lt(other) && !other.lt(self)
    }

    /// The larger of the two; `self` where they are the same number.
    pub fn max(self, other: Decimal) -> (r: Decimal)
        ensures
            r == if self@.lt(other@) { other } else { self },
    {
        if self.lt(&other) {
            other
        } else {
            self
        }
    }

    /// Rounds to at most `dp` fractional digits.
    pub fn round_dp_with_strategy(&self, dp: u32, rounding: Rounding) -> (r: Decimal)
        ensures
            r@ == self@.round(dp as nat, rounding),
    {
        proof {
            use_type_invariant(self);
        }
        decimal_round(*self, dp, rounding)
    }

    /// Rounds to at most `dp` fractional digits, ties to even.
    pub fn round_dp(&self, dp: u32) -> (r: Decimal)
        ensures
            r@ == self@.round(dp as nat, Rounding::HalfEven),
    {
        self.round_dp_with_strategy(dp, Rounding::HalfEven)
    }

    /// The number in decimal notation, with as many fractional digits as its scale.
    pub fn to_string(&self) -> (r: String)
        ensures
            r@ == self@.text(),
    {
        proof {
            use_type_invariant(self);
        }
        decimal_to_string(*self)
    }

    /// The sixteen bytes that stand for this decimal in a store.
    pub fn serialize(&self) -> (r: [u8; 16])
        ensures
            r@ == self@.bytes(),
            Dec::from_bytes(r@) == self@,
    {
        proof {
            use_type_invariant(self);
        }
        decimal_serialize(*self)
    }

    /// The decimal that sixteen bytes of a store stand for.
    pub fn deserialize(bytes: [u8; 16]) -> (r: Decimal)
        ensures
            r@ == Dec::from_bytes(bytes@),
    {
        decimal_deserialize(bytes)
    }
}

impl PartialEq for Decimal {
    fn eq(&self, other: &Decimal) -> (r: bool) {
        self.same(other)
    }
}

impl Eq for Decimal {

}

impl vstd::std_specs::cmp::PartialEqSpecImpl for Decimal {
    open spec fn obeys_eq_spec() -> bool {
        true
    }

    open spec fn eq_spec(&self, other: &Decimal) -> bool {
        self@.same(other@)
    }
}

/// `rust_decimal::Decimal::checked_add`: the result is the other operand where
/// one is zero, and otherwise whatever the crate computes, named by
/// `decimal_sum`; `None` is an overflow.
#[verifier::external_body]
fn decimal_checked_add(a: Decimal, b: Decimal) -> (r: Option<Decimal>)
    requires
        a@.wf(),
        b@.wf(),
    ensures
        a@.m == 0 ==> r == Some(b),
        a@.m != 0 && b@.m == 0 ==> r == Some(a),
        a@.m != 0 && b@.m != 0 ==> Decimal::model(r) == Dec::lift(
            decimal_sum(a@.m, a@.e, b@.m, b@.e),
        ),
{
    let x = rust_decimal::Decimal::from_i128_with_scale(a.mantissa, a.scale);
    let y = rust_decimal::Decimal::from_i128_with_scale(b.mantissa, b.scale);
    match x.checked_add(y) {
        Some(d) => Some(Decimal { mantissa: d.mantissa(), scale: d.scale() }),
        None => None,
    }
}

/// `rust_decimal::Decimal::checked_sub`: `a` where `b` is zero, `b` negated
/// where `a` is zero, and otherwise whatever the crate computes, named by
/// `decimal_difference`; `None` is an overflow.
#[verifier::external_body]
fn decimal_checked_sub(a: Decimal, b: Decimal) -> (r: Option<Decimal>)
    requires
        a@.wf(),
        b@.wf(),
    ensures
        a@.m == 0 ==> Decimal::model(r) == Some(b@.neg()),
        a@.m != 0 && b@.m == 0 ==> r == Some(a),
        a@.m != 0 && b@.m != 0 ==> Decimal::model(r) == Dec::lift(
            decimal_difference(a@.m, a@.e, b@.m, b@.e),
        ),
{
    let x = rust_decimal::Decimal::from_i128_with_scale(a.mantissa, a.scale);
    let y = rust_decimal::Decimal::from_i128_with_scale(b.mantissa, b.scale);
    match x.checked_sub(y) {
        Some(d) => Some(Decimal { mantissa: d.mantissa(), scale: d.scale() }),
        None => None,
    }
}

/// `rust_decimal::Decimal::checked_mul`: plain zero where a factor is zero,
/// and otherwise whatever the crate computes, named by `decimal_product`;
/// `None` is an overflow.
#[verifier::external_body]
fn decimal_checked_mul(a: Decimal, b: Decimal) -> (r: Option<Decimal>)
    requires
        a@.wf(),
        b@.wf(),
    ensures
        a@.m == 0 || b@.m == 0 ==> Decimal::model(r) == Some(Dec::zero()),
        a@.m != 0 && b@.m != 0 ==> Decimal::model(r) == Dec::lift(
            decimal_product(a@.m, a@.e, b@.m, b@.e),
        ),
{
    let x = rust_decimal::Decimal::from_i128_with_scale(a.mantissa, a.scale);
    let y = rust_decimal::Decimal::from_i128_with_scale(b.mantissa, b.scale);
    match x.checked_mul(y) {
        Some(d) => Some(Decimal { mantissa: d.mantissa(), scale: d.scale() }),
        None => None,
    }
}

/// `rust_decimal::Decimal::checked_div`: `None` where the divisor is zero,
/// plain zero where the dividend is, and otherwise whatever the crate
/// computes, named by `decimal_quotient`, `None` being an overflow.
#[verifier::external_body]
fn decimal_checked_div(a: Decimal, b: Decimal) -> (r: Option<Decimal>)
    requires
        a@.wf(),
        b@.wf(),
    ensures
        b@.m == 0 ==> r.is_none(),
        b@.m != 0 && a@.m == 0 ==> Decimal::model(r) == Some(Dec::zero()),
        a@.m != 0 && b@.m != 0 ==> Decimal::model(r) == Dec::lift(
            decimal_quotient(a@.m, a@.e, b@.m, b@.e),
        ),
{
    let x = rust_decimal::Decimal::from_i128_with_scale(a.mantissa, a.scale);
    let y = rust_decimal::Decimal::from_i128_with_scale(b.mantissa, b.scale);
    match x.checked_div(y) {
        Some(d) => Some(Decimal { mantissa: d.mantissa(), scale: d.scale() }),
        None => None,
    }
}

/// The `<` of `rust_decimal::Decimal`, which compares the two numbers
/// whatever their scales.
#[verifier::external_body]
fn decimal_lt(a: Decimal, b: Decimal) -> (r: bool)
    requires
        a@.wf(),
        b@.wf(),
    ensures
        r == a@.lt(b@),
{
    let x = rust_decimal::Decimal::from_i128_with_scale(a.mantissa, a.scale);
    let y = rust_decimal::Decimal::from_i128_with_scale(b.mantissa, b.scale);
    x < y
}

/// `rust_decimal::Decimal::round_dp_with_strategy` with the strategies
/// `MidpointNearestEven` and `ToPositiveInfinity`: a decimal with no more
/// than `dp` fractional digits is returned as it is; of any other the
/// digits beyond `dp` are dropped and the last one kept is raised as the
/// strategy says.
#[verifier::external_body]
fn decimal_round(a: Decimal, dp: u32, rounding: Rounding) -> (r: Decimal)
    requires
        a@.wf(),
    ensures
        r@ == a@.round(dp as nat, rounding),
{
    let x = rust_decimal::Decimal::from_i128_with_scale(a.mantissa, a.scale);
    let strategy = match rounding {
        Rounding::HalfEven => rust_decimal::RoundingStrategy::MidpointNearestEven,
        Rounding::Ceiling => rust_decimal::RoundingStrategy::ToPositiveInfinity,
    };
    let d = x.round_dp_with_strategy(dp, strategy);
    Decimal { mantissa: d.mantissa(), scale: d.scale() }
}

/// The `to_string` that `rust_decimal::Decimal` has from its `Display`; the text is named by `decimal_text`.
#[verifier::external_body]
fn decimal_to_string(a: Decimal) -> (r: String)
    requires
        a@.wf(),
    ensures
        r@ == decimal_text(a@.m, a@.e),
{
    rust_decimal::Decimal::from_i128_with_scale(a.mantissa, a.scale).to_string()
}

/// `rust_decimal::Decimal::serialize`: the bytes are named by
/// `decimal_bytes`, and `deserialize` reads the same decimal back from them.
#[verifier::external_body]
fn decimal_serialize(a: Decimal) -> (r: [u8; 16])
    requires
        a@.wf(),
    ensures
        r@ == decimal_bytes(a@.m, a@.e),
        decimal_from_bytes(r@) == (a@.m, a@.e),
{
    rust_decimal::Decimal::from_i128_with_scale(a.mantissa, a.scale).serialize()
}

/// `rust_decimal::Decimal::deserialize`, which accepts any sixteen bytes;
/// the decimal it reads is named by `decimal_from_bytes`.
#[verifier::external_body]
fn decimal_deserialize(bytes: [u8; 16]) -> (r: Decimal)
    ensures
        (r@.m, r@.e) == decimal_from_bytes(bytes@),
{
    let d = rust_decimal::Decimal::deserialize(bytes);
    Decimal { mantissa: d.mantissa(), scale: d.scale() }
}

} // verus!
