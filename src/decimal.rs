use vstd::arithmetic::div_mod::lemma_div_denominator;
use vstd::arithmetic::power::{
    lemma_pow0, lemma_pow1, lemma_pow_adds, lemma_pow_increases, lemma_pow_positive, pow,
};
use vstd::prelude::*;
use crate::bigint::{abs, pow256, trunc_div, two_pow_64, BigInt};
use crate::text::{
    int_text, nat_text, decimal_text, decimal_text_accepted, decimal_text_exponent, decimal_text_mantissa,
    has_exponent_marker,
};

verus! {

pub open spec fn i64_max() -> int {
    0x7fff_ffff_ffff_ffff
}

pub open spec fn i64_min() -> int {
    -0x8000_0000_0000_0000
}

/// The canonical form of `m * 10^e`: trailing zero digits of the mantissa
/// move into the exponent, and zero is `(0, 0)`. The exponent stops at the
/// largest `i64`.
pub open spec fn norm(m: int, e: int) -> (int, int)
    decreases abs(m),
{
    if m == 0 {
        (0, 0)
    } else if m % 10 == 0 && e < i64_max() {
        norm(m / 10, e + 1)
    } else {
        (m, e)
    }
}

/// A pair that `norm` leaves as it is.
pub open spec fn is_canonical(m: int, e: int) -> bool {
    (m == 0 && e == 0) || (m != 0 && (m % 10 != 0 || e == i64_max()))
}

/// `m` written at the power of ten `base`, for `base <= e`.
pub open spec fn scaled(m: int, e: int, base: int) -> int {
    m * pow(10, (e - base) as nat)
}

pub open spec fn min(a: int, b: int) -> int {
    if a <= b {
        a
    } else {
        b
    }
}

/// The exact sum of `ma * 10^ea` and `mb * 10^eb`, at the smaller exponent.
pub open spec fn sum_at_min(ma: int, ea: int, mb: int, eb: int) -> (int, int) {
    let b = min(ea, eb);
    (scaled(ma, ea, b) + scaled(mb, eb, b), b)
}

/// The exact difference, at the smaller exponent.
pub open spec fn diff_at_min(ma: int, ea: int, mb: int, eb: int) -> (int, int) {
    let b = min(ea, eb);
    (scaled(ma, ea, b) - scaled(mb, eb, b), b)
}

/// The exponent gap that exact decimal division keeps within its `i64`
/// scale: it may add a step per digit of the divisor and about a hundred
/// more for precision.
pub open spec fn div_exponents_ok(ma: int, ea: int, mb: int, eb: int) -> bool {
    i64_min() + 102 + int_text(mb).len() <= ea - eb <= i64_max()
}

/// What exact decimal division returns for `ma * 10^ea / mb * 10^eb`, as
/// (unscaled value, power of ten): the exact quotient where it has at most
/// about a hundred digits, else one rounded to that precision.
pub uninterp spec fn decimal_quotient(ma: int, ea: int, mb: int, eb: int) -> (int, int);

/// What exact decimal's digit count returns for the unscaled value `m`.
pub uninterp spec fn decimal_digit_count(m: int) -> nat;

/// The integer part of `m * 10^e`, rounded toward zero.
pub open spec fn trunc_int(m: int, e: int) -> int {
    if e >= 0 {
        m * pow(10, e as nat)
    } else {
        trunc_div(m, pow(10, (-e) as nat))
    }
}

proof fn lemma_trunc_compose(m: int, a: int, b: int)
    requires
        a > 0,
        b > 0,
    ensures
        trunc_div(trunc_div(m, a), b) == trunc_div(m, a * b),
{
    lemma_div_denominator(abs(m) as int, a, b);
    assert(a * b > 0) by (nonlinear_arith)
        requires
            a > 0,
            b > 0,
    ;
    let q = abs(m) as int / a;
    assert(q >= 0);
    assert(abs(trunc_div(m, a)) as int == q);
}

/// A non-zero value times more than `10^19` is out of the 64-bit ranges.
proof fn lemma_big_exponent(m: int, e: int)
    requires
        m != 0,
        e > 19,
    ensures
        m > 0 ==> trunc_int(m, e) >= two_pow_64(),
        m < 0 ==> trunc_int(m, e) < i64_min(),
{
    reveal(pow);
    reveal_with_fuel(pow, 21);
    reveal_with_fuel(pow256, 9);
    lemma_pow_increases(10, 20, e as nat);
    let p = pow(10, e as nat);
    assert(pow(10, 20) == 100000000000000000000int);
    if m > 0 {
        assert(m * p >= p) by (nonlinear_arith)
            requires
                m >= 1,
                p >= 0,
        ;
    } else {
        assert(m * p <= -p) by (nonlinear_arith)
            requires
                m <= -1,
                p >= 0,
        ;
    }
}

proof fn lemma_trunc_ten(m: int)
    ensures
        (crate::bigint::trunc_rem(m, 10) == 0) == (m % 10 == 0),
        m % 10 == 0 ==> crate::bigint::trunc_div(m, 10) == m / 10,
        m % 10 == 0 && m != 0 ==> abs(m / 10) < abs(m),
{
    if m < 0 {
        let q = (-m) / 10;
        assert(-m == 10 * q + (-m) % 10);
        assert(m == 10 * (m / 10) + m % 10);
    } else {
        assert(m == 10 * (m / 10) + m % 10);
    }
}

proof fn lemma_norm_canonical(m: int, e: int)
    requires
        e <= i64_max(),
    ensures
        is_canonical(norm(m, e).0, norm(m, e).1),
        m != 0 ==> norm(m, e).1 >= e,
        m == 0 ==> norm(m, e) == (0int, 0int),
    decreases abs(m),
{
    if m != 0 && m % 10 == 0 && e < i64_max() {
        lemma_norm_canonical(m / 10, e + 1);
    }
}

proof fn lemma_canonical_fixed(m: int, e: int)
    requires
        is_canonical(m, e),
    ensures
        norm(m, e) == (m, e),
{
}

/// Normalizing twice gives what normalizing once gives.
pub proof fn lemma_norm_idempotent(m: int, e: int)
    requires
        e <= i64_max(),
    ensures
        norm(norm(m, e).0, norm(m, e).1) == norm(m, e),
{
    lemma_norm_canonical(m, e);
    lemma_canonical_fixed(norm(m, e).0, norm(m, e).1);
}

/// Whatever exponent it comes with, a zero mantissa normalizes to the one
/// zero, whose text is `0`.
pub proof fn lemma_zero_canonical(e: int)
    ensures
        norm(0, e) == (0int, 0int),
        decimal_text(norm(0, e).0, norm(0, e).1) =~= seq!['0'],
{
    let d = crate::text::nat_text(0);
    assert(d =~= seq!['0']);
    assert(d + crate::text::zeros_text(0) =~= d);
}

/// An exact decimal number `mantissa * 10^exponent`, always normalized.
#[derive(Clone, Debug, PartialEq, Eq)]
pub struct BigDecimal {
    mantissa: BigInt,
    exponent: i64,
}

/// Decimal text that does not parse.
#[derive(PartialEq, Eq, Structural, Clone, Copy, Debug)]
pub enum BigDecimalParseError {
    /// Not an optional sign, digits and at most one point.
    Invalid,
    /// Exponent notation (`e` or `E`) is not accepted.
    Exponent,
}

impl BigDecimal {
    /// The unscaled value.
    pub closed spec fn mant(&self) -> int {
        self.mantissa.value()
    }

    /// The power of ten.
    pub closed spec fn exp(&self) -> int {
        self.exponent as int
    }

    /// The pair is canonical, and the exponent can be negated in an `i64`.
    pub closed spec fn wf(&self) -> bool {
        self.mantissa.wf() && self.exponent != i64::MIN && is_canonical(self.mant(), self.exp())
    }

    /// The canonical zero.
    pub fn zero() -> (r: BigDecimal)
        ensures
            r.wf(),
            r.mant() == 0,
            r.exp() == 0,
    {
        BigDecimal { mantissa: BigInt::from_u64(0), exponent: 0 }
    }

    /// Normalizes `digits * 10^exp`. A zero mantissa is accepted with any
    /// exponent; another needs one whose negation fits an `i64`.
    pub fn new(digits: BigInt, exp: i64) -> (r: BigDecimal)
        requires
            digits.wf(),
            digits.value() == 0 || exp > i64::MIN,
        ensures
            r.wf(),
            (r.mant(), r.exp()) == norm(digits.value(), exp as int),
    {
        if digits.is_zero() {
            return BigDecimal::zero();
        }
        let ghost m0 = digits.value();
        let mut m = digits;
        let mut e = exp;
        let mut stop = false;
        while e < i64::MAX && !stop
            invariant
                m.wf(),
                m.value() != 0,
                e > i64::MIN,
                stop ==> m.value() % 10 != 0,
                norm(m.value(), e as int) == norm(m0, exp as int),
            decreases abs(m.value()), if stop { 0int } else { 1int },
        {
            let r = m.copy().rem(BigInt::from_u64(10));
            proof {
                lemma_trunc_ten(m.value());
            }
            if !r.is_zero() {
                stop = true;
            } else {
                m = m.div(BigInt::from_u64(10));
                e = e + 1;
            }
        }
        proof {
            lemma_norm_canonical(m0, exp as int);
        }
        BigDecimal { mantissa: m, exponent: e }
    }

    /// The unscaled value and the power of ten.
    pub fn as_bigint_and_exponent(&self) -> (r: (BigInt, i64))
        requires
            self.wf(),
        ensures
            r.0.value() == self.mant(),
            r.0.wf(),
            r.1 as int == self.exp(),
    {
        (self.mantissa.copy(), self.exponent)
    }

    /// The canonical form, which a well-formed value already has.
    pub fn normalized(&self) -> (r: BigDecimal)
        requires
            self.wf(),
        ensures
            r.wf(),
            (r.mant(), r.exp()) == norm(self.mant(), self.exp()),
            r.mant() == self.mant() && r.exp() == self.exp(),
    {
        proof {
            lemma_canonical_fixed(self.mant(), self.exp());
        }
        BigDecimal::new(self.mantissa.copy(), self.exponent)
    }

    /// What a content hash is fed: first the scale (minus the exponent),
    /// then the mantissa's sign flag and trimmed little-endian magnitude.
    pub fn hash_parts(&self) -> (r: (i64, bool, Vec<u8>))
        requires
            self.wf(),
        ensures
            r.0 == -self.exp(),
            r.1 == (self.mant() < 0),
            crate::bigint::is_trimmed(r.2@),
            crate::bigint::le_value(r.2@) == abs(self.mant()),
    {
        let (neg, mag) = self.mantissa.hash_parts();
        (-self.exponent, neg, mag)
    }

    /// Number of decimal digits of the unscaled value (one for zero).
    pub fn digits(&self) -> (r: u64)
        requires
            self.wf(),
        ensures
            r == decimal_digit_count(self.mant()),
            self.mant() >= 0 ==> r == nat_text(self.mant() as nat).len(),
    {
        dec_digits(self)
    }

    /// Numeric comparison of the two decimal values.
    pub fn compare(&self, other: &BigDecimal) -> (r: std::cmp::Ordering)
        requires
            self.wf(),
            other.wf(),
            i64_min() <= self.exp() - other.exp() <= i64_max(),
        ensures
            (r == std::cmp::Ordering::Less) == (diff_at_min(self.mant(), self.exp(), other.mant(), other.exp()).0 < 0),
            (r == std::cmp::Ordering::Equal) == (diff_at_min(self.mant(), self.exp(), other.mant(), other.exp()).0 == 0),
            (r == std::cmp::Ordering::Greater) == (diff_at_min(self.mant(), self.exp(), other.mant(), other.exp()).0 > 0),
    {
        let (neg, mag, _) = dec_sub(self, other);
        let d = BigInt::from_sign_magnitude(neg, mag);
        d.compare(&BigInt::from_u64(0))
    }

    /// The integer part, rounded toward zero, for exponents up to 19.
    fn trunc_to_int(&self) -> (r: BigInt)
        requires
            self.wf(),
            self.exp() <= 19,
        ensures
            r.wf(),
            r.value() == trunc_int(self.mant(), self.exp()),
    {
        if self.exponent >= 0 {
            let p = BigInt::from_u64(10).pow(self.exponent as u8);
            self.mantissa.copy().mul(p)
        } else {
            let k: u64 = (0i64 - self.exponent) as u64;
            let mut m = self.mantissa.copy();
            let mut j: u64 = 0;
            proof {
                lemma_pow0(10);
                assert(abs(self.mant()) as int / 1 == abs(self.mant()) as int);
                assert(trunc_div(self.mant(), 1) == self.mant());
            }
            while j < k && !m.is_zero()
                invariant
                    j <= k,
                    k as int == -self.exp(),
                    m.wf(),
                    m.value() == trunc_div(self.mant(), pow(10, j as nat)),
                decreases k - j,
            {
                proof {
                    lemma_pow_positive(10, j as nat);
                    lemma_trunc_compose(self.mant(), pow(10, j as nat), 10);
                    lemma_pow1(10);
                    lemma_pow_adds(10, j as nat, 1);
                    assert(pow(10, (j + 1) as nat) == pow(10, j as nat) * 10);
                }
                m = m.div(BigInt::from_u64(10));
                j += 1;
            }
            proof {
                if j < k {
                    let rest = (k - j) as nat;
                    lemma_pow_positive(10, j as nat);
                    lemma_pow_positive(10, rest);
                    lemma_trunc_compose(self.mant(), pow(10, j as nat), pow(10, rest));
                    lemma_pow_adds(10, j as nat, rest);
                    assert(j as nat + rest == k as nat);
                }
            }
            m
        }
    }

    /// The integer part as an `i64`, rounded toward zero; `None` where it
    /// does not fit.
    pub fn to_i64(&self) -> (r: Option<i64>)
        requires
            self.wf(),
        ensures
            r is Some <==> i64_min() <= trunc_int(self.mant(), self.exp()) <= i64_max(),
            r is Some ==> r->Some_0 as int == trunc_int(self.mant(), self.exp()),
    {
        proof {
            reveal_with_fuel(pow256, 9);
        }
        if self.exponent > 19 {
            proof {
                lemma_big_exponent(self.mant(), self.exp());
            }
            return None;
        }
        let t = self.trunc_to_int();
        if t.is_negative() {
            let n = BigInt::from_u64(0).sub(t);
            let c = n.try_to_u64();
            match c {
                Ok(v) => {
                    if v <= 0x8000_0000_0000_0000u64 {
                        Some((0i128 - v as i128) as i64)
                    } else {
                        None
                    }
                },
                Err(e) => {
                    proof {
                        assert(c == Err::<u64, crate::bigint::BigIntOutOfRangeError>(e));
                    }
                    None
                },
            }
        } else {
            let c = t.try_to_u64();
            match c {
                Ok(v) => {
                    if v <= 0x7fff_ffff_ffff_ffffu64 {
                        Some(v as i64)
                    } else {
                        None
                    }
                },
                Err(e) => {
                    proof {
                        assert(c == Err::<u64, crate::bigint::BigIntOutOfRangeError>(e));
                    }
                    None
                },
            }
        }
    }

    /// The integer part as a `u64`, rounded toward zero; `None` for a
    /// negative value and where it does not fit.
    pub fn to_u64(&self) -> (r: Option<u64>)
        requires
            self.wf(),
        ensures
            r is Some <==> self.mant() >= 0 && trunc_int(self.mant(), self.exp()) < two_pow_64(),
            r is Some ==> r->Some_0 as int == trunc_int(self.mant(), self.exp()),
    {
        if self.mantissa.is_negative() {
            return None;
        }
        if self.exponent > 19 {
            proof {
                lemma_big_exponent(self.mant(), self.exp());
            }
            return None;
        }
        let t = self.trunc_to_int();
        proof {
            if self.exp() >= 0 {
                let p = pow(10, self.exp() as nat);
                lemma_pow_positive(10, self.exp() as nat);
                assert(self.mant() * p >= 0) by (nonlinear_arith)
                    requires
                        self.mant() >= 0,
                        p > 0,
                ;
            } else {
                lemma_pow_positive(10, (-self.exp()) as nat);
            }
        }
        let c = t.try_to_u64();
        match c {
            Ok(v) => Some(v),
            Err(e) => {
                proof {
                    assert(c == Err::<u64, crate::bigint::BigIntOutOfRangeError>(e));
                }
                None
            },
        }
    }

    /// The decimal of a native `i64`.
    pub fn from_i64(n: i64) -> (r: BigDecimal)
        ensures
            r.wf(),
            (r.mant(), r.exp()) == norm(n as int, 0),
    {
        BigDecimal::new(BigInt::from_i64(n), 0)
    }

    /// The decimal of a native `u64`.
    pub fn from_u64(n: u64) -> (r: BigDecimal)
        ensures
            r.wf(),
            (r.mant(), r.exp()) == norm(n as int, 0),
    {
        BigDecimal::new(BigInt::from_u64(n), 0)
    }

    /// Standard decimal notation, without an exponent.
    pub fn to_string(&self) -> (r: String)
        requires
            self.wf(),
        ensures
            r@ == decimal_text(self.mant(), self.exp()),
    {
        dec_to_string(self)
    }

    /// Parses an optional sign, digits and at most one decimal point.
    pub fn from_str(s: &str) -> (r: Result<BigDecimal, BigDecimalParseError>)
        ensures
            r == Err::<BigDecimal, BigDecimalParseError>(BigDecimalParseError::Exponent)
                <==> has_exponent_marker(s@),
            r is Ok <==> !has_exponent_marker(s@) && decimal_text_accepted(s@),
            r is Ok ==> r->Ok_0.wf() && (r->Ok_0.mant(), r->Ok_0.exp()) == norm(
                decimal_text_mantissa(s@),
                decimal_text_exponent(s@),
            ),
    {
        let n = s.unicode_len();
        let mut i: usize = 0;
        while i < n
            invariant
                n == s@.len(),
                i <= n,
                forall|k: int| 0 <= k < i ==> s@[k] != 'e' && s@[k] != 'E',
            decreases n - i,
        {
            let c = s.get_char(i);
            if c == 'e' || c == 'E' {
                return Err(BigDecimalParseError::Exponent);
            }
            i += 1;
        }
        match dec_parse(s) {
            Ok((neg, mag, scale)) => {
                let m = BigInt::from_sign_magnitude(neg, mag);
                Ok(BigDecimal::new(m, -scale))
            },
            Err(_) => Err(BigDecimalParseError::Invalid),
        }
    }

    /// The exact sum.
    pub fn add(self, other: BigDecimal) -> (r: BigDecimal)
        requires
            self.wf(),
            other.wf(),
            i64_min() <= self.exp() - other.exp() <= i64_max(),
        ensures
            r.wf(),
            (r.mant(), r.exp()) == norm(
                sum_at_min(self.mant(), self.exp(), other.mant(), other.exp()).0,
                sum_at_min(self.mant(), self.exp(), other.mant(), other.exp()).1,
            ),
    {
        let (neg, mag, scale) = dec_add(&self, &other);
        BigDecimal::new(BigInt::from_sign_magnitude(neg, mag), -scale)
    }

    /// The exact difference.
    pub fn sub(self, other: BigDecimal) -> (r: BigDecimal)
        requires
            self.wf(),
            other.wf(),
            i64_min() <= self.exp() - other.exp() <= i64_max(),
        ensures
            r.wf(),
            (r.mant(), r.exp()) == norm(
                diff_at_min(self.mant(), self.exp(), other.mant(), other.exp()).0,
                diff_at_min(self.mant(), self.exp(), other.mant(), other.exp()).1,
            ),
    {
        let (neg, mag, scale) = dec_sub(&self, &other);
        BigDecimal::new(BigInt::from_sign_magnitude(neg, mag), -scale)
    }

    /// The exact product.
    pub fn mul(self, other: BigDecimal) -> (r: BigDecimal)
        requires
            self.wf(),
            other.wf(),
            i64_min() < self.exp() + other.exp() <= i64_max(),
        ensures
            r.wf(),
            (r.mant(), r.exp()) == norm(self.mant() * other.mant(), self.exp() + other.exp()),
    {
        let (neg, mag, scale) = dec_mul(&self, &other);
        BigDecimal::new(BigInt::from_sign_magnitude(neg, mag), -scale)
    }

    /// The quotient. Dividing by zero is a caller error, and the exponents
    /// must leave room for the quotient's scale.
    pub fn div(self, other: BigDecimal) -> (r: BigDecimal)
        requires
            self.wf(),
            other.wf(),
            other.mant() != 0,
            div_exponents_ok(self.mant(), self.exp(), other.mant(), other.exp()),
        ensures
            r.wf(),
            (r.mant(), r.exp()) == norm(
                decimal_quotient(self.mant(), self.exp(), other.mant(), other.exp()).0,
                decimal_quotient(self.mant(), self.exp(), other.mant(), other.exp()).1,
            ),
    {
        let (neg, mag, scale) = dec_div(&self, &other);
        BigDecimal::new(BigInt::from_sign_magnitude(neg, mag), -scale)
    }

    /// The quotient, or `None` where the exponents leave no room for its
    /// scale. Dividing by zero is a caller error.
    pub fn checked_div(self, other: BigDecimal) -> (r: Option<BigDecimal>)
        requires
            self.wf(),
            other.wf(),
            other.mant() != 0,
        ensures
            r is Some <==> div_exponents_ok(self.mant(), self.exp(), other.mant(), other.exp()),
            r is Some ==> r->Some_0.wf() && (r->Some_0.mant(), r->Some_0.exp()) == norm(
                decimal_quotient(self.mant(), self.exp(), other.mant(), other.exp()).0,
                decimal_quotient(self.mant(), self.exp(), other.mant(), other.exp()).1,
            ),
    {
        let text = other.mantissa.to_string();
        let len = text.as_str().unicode_len();
        let gap: i128 = self.exponent as i128 - other.exponent as i128;
        if gap <= i64::MAX as i128 && gap >= i64::MIN as i128 + 102 + len as i128 {
            Some(self.div(other))
        } else {
            None
        }
    }
}

impl From<i32> for BigDecimal {
    fn from(n: i32) -> BigDecimal {
        BigDecimal::from_i64(n as i64)
    }
}

impl From<i64> for BigDecimal {
    fn from(n: i64) -> BigDecimal {
        BigDecimal::from_i64(n)
    }
}

impl From<u64> for BigDecimal {
    fn from(n: u64) -> BigDecimal {
        BigDecimal::from_u64(n)
    }
}

impl vstd::std_specs::convert::FromSpecImpl<i32> for BigDecimal {
    open spec fn obeys_from_spec() -> bool {
        false
    }

    open spec fn from_spec(v: i32) -> BigDecimal {
        arbitrary()
    }
}

impl vstd::std_specs::convert::FromSpecImpl<i64> for BigDecimal {
    open spec fn obeys_from_spec() -> bool {
        false
    }

    open spec fn from_spec(v: i64) -> BigDecimal {
        arbitrary()
    }
}

impl vstd::std_specs::convert::FromSpecImpl<u64> for BigDecimal {
    open spec fn obeys_from_spec() -> bool {
        false
    }

    open spec fn from_spec(v: u64) -> BigDecimal {
        arbitrary()
    }
}

/// Relies on bigdecimal's `BigDecimal::digits`: for a non-negative unscaled
/// value, its number of base-10 digits (one for zero); for a negative one,
/// a count that depends on the value alone.
#[verifier::external_body]
fn dec_digits(d: &BigDecimal) -> (r: u64)
    requires
        d.wf(),
    ensures
        r == decimal_digit_count(d.mant()),
        d.mant() >= 0 ==> r == nat_text(d.mant() as nat).len(),
{
    let m = num_bigint::BigInt::from_bytes_le(if d.mantissa.negative { num_bigint::Sign::Minus } else { num_bigint::Sign::Plus }, &d.mantissa.magnitude);
    bigdecimal::BigDecimal::new(m, -d.exponent).digits()
}

/// Relies on bigdecimal's `Display`: standard notation of the unscaled
/// value and scale (the scale is minus the exponent).
#[verifier::external_body]
fn dec_to_string(d: &BigDecimal) -> (r: String)
    requires
        d.wf(),
    ensures
        r@ == decimal_text(d.mant(), d.exp()),
{
    let m = num_bigint::BigInt::from_bytes_le(if d.mantissa.negative { num_bigint::Sign::Minus } else { num_bigint::Sign::Plus }, &d.mantissa.magnitude);
    bigdecimal::BigDecimal::new(m, -d.exponent).to_string()
}

#[verifier::external_type_specification]
#[verifier::external_body]
pub struct ExParseBigDecimalError(bigdecimal::ParseBigDecimalError);

/// Relies on bigdecimal's `FromStr`: without an exponent, the digits with
/// the point removed parse as an integer, and the scale is the number of
/// digits after the point.
#[verifier::external_body]
fn dec_parse(s: &str) -> (r: Result<(bool, Vec<u8>, i64), bigdecimal::ParseBigDecimalError>)
    requires
        !has_exponent_marker(s@),
    ensures
        r is Ok <==> decimal_text_accepted(s@),
        r is Ok ==> crate::bigint::sm_value(r->Ok_0.0, r->Ok_0.1@) == decimal_text_mantissa(s@)
            && -r->Ok_0.2 == decimal_text_exponent(s@),
{
    let (i, scale) = <bigdecimal::BigDecimal as std::str::FromStr>::from_str(s)?.as_bigint_and_exponent();
    let (sign, m) = i.to_bytes_le();
    Ok((sign == num_bigint::Sign::Minus, m, scale))
}

/// Relies on bigdecimal's `&BigDecimal + &BigDecimal`: the exact sum at the
/// larger scale.
#[verifier::external_body]
fn dec_add(a: &BigDecimal, b: &BigDecimal) -> (r: (bool, Vec<u8>, i64))
    requires
        a.wf(),
        b.wf(),
        i64_min() <= a.exp() - b.exp() <= i64_max(),
    ensures
        (crate::bigint::sm_value(r.0, r.1@), -r.2) == sum_at_min(a.mant(), a.exp(), b.mant(), b.exp()),
{
    let x = bigdecimal::BigDecimal::new(num_bigint::BigInt::from_bytes_le(if a.mantissa.negative { num_bigint::Sign::Minus } else { num_bigint::Sign::Plus }, &a.mantissa.magnitude), -a.exponent);
    let y = bigdecimal::BigDecimal::new(num_bigint::BigInt::from_bytes_le(if b.mantissa.negative { num_bigint::Sign::Minus } else { num_bigint::Sign::Plus }, &b.mantissa.magnitude), -b.exponent);
    let (i, scale) = (&x + &y).as_bigint_and_exponent();
    let (sign, m) = i.to_bytes_le();
    (sign == num_bigint::Sign::Minus, m, scale)
}

/// Relies on bigdecimal's `&BigDecimal - &BigDecimal`: the exact difference
/// at the larger scale.
#[verifier::external_body]
fn dec_sub(a: &BigDecimal, b: &BigDecimal) -> (r: (bool, Vec<u8>, i64))
    requires
        a.wf(),
        b.wf(),
        i64_min() <= a.exp() - b.exp() <= i64_max(),
    ensures
        (crate::bigint::sm_value(r.0, r.1@), -r.2) == diff_at_min(a.mant(), a.exp(), b.mant(), b.exp()),
{
    let x = bigdecimal::BigDecimal::new(num_bigint::BigInt::from_bytes_le(if a.mantissa.negative { num_bigint::Sign::Minus } else { num_bigint::Sign::Plus }, &a.mantissa.magnitude), -a.exponent);
    let y = bigdecimal::BigDecimal::new(num_bigint::BigInt::from_bytes_le(if b.mantissa.negative { num_bigint::Sign::Minus } else { num_bigint::Sign::Plus }, &b.mantissa.magnitude), -b.exponent);
    let (i, scale) = (&x - &y).as_bigint_and_exponent();
    let (sign, m) = i.to_bytes_le();
    (sign == num_bigint::Sign::Minus, m, scale)
}

/// Relies on bigdecimal's `&BigDecimal * &BigDecimal`: the product of the
/// unscaled values at the sum of the scales.
#[verifier::external_body]
fn dec_mul(a: &BigDecimal, b: &BigDecimal) -> (r: (bool, Vec<u8>, i64))
    requires
        a.wf(),
        b.wf(),
        i64_min() < a.exp() + b.exp() <= i64_max(),
    ensures
        crate::bigint::sm_value(r.0, r.1@) == a.mant() * b.mant(),
        -r.2 == a.exp() + b.exp(),
{
    let x = bigdecimal::BigDecimal::new(num_bigint::BigInt::from_bytes_le(if a.mantissa.negative { num_bigint::Sign::Minus } else { num_bigint::Sign::Plus }, &a.mantissa.magnitude), -a.exponent);
    let y = bigdecimal::BigDecimal::new(num_bigint::BigInt::from_bytes_le(if b.mantissa.negative { num_bigint::Sign::Minus } else { num_bigint::Sign::Plus }, &b.mantissa.magnitude), -b.exponent);
    let (i, scale) = (&x * &y).as_bigint_and_exponent();
    let (sign, m) = i.to_bytes_le();
    (sign == num_bigint::Sign::Minus, m, scale)
}

/// Relies on bigdecimal's `BigDecimal / BigDecimal`, which panics on a zero
/// divisor and otherwise depends on its arguments alone. Its scale starts at
/// the difference of the scales and only grows, by at most one step per
/// digit of the divisor and a hundred for precision; a zero dividend keeps
/// scale zero.
#[verifier::external_body]
fn dec_div(a: &BigDecimal, b: &BigDecimal) -> (r: (bool, Vec<u8>, i64))
    requires
        a.wf(),
        b.wf(),
        b.mant() != 0,
        div_exponents_ok(a.mant(), a.exp(), b.mant(), b.exp()),
    ensures
        -r.2 <= i64_max(),
        (crate::bigint::sm_value(r.0, r.1@), -r.2) == decimal_quotient(a.mant(), a.exp(), b.mant(), b.exp()),
{
    let x = bigdecimal::BigDecimal::new(num_bigint::BigInt::from_bytes_le(if a.mantissa.negative { num_bigint::Sign::Minus } else { num_bigint::Sign::Plus }, &a.mantissa.magnitude), -a.exponent);
    let y = bigdecimal::BigDecimal::new(num_bigint::BigInt::from_bytes_le(if b.mantissa.negative { num_bigint::Sign::Minus } else { num_bigint::Sign::Plus }, &b.mantissa.magnitude), -b.exponent);
    let (i, scale) = (x / y).as_bigint_and_exponent();
    let (sign, m) = i.to_bytes_le();
    (sign == num_bigint::Sign::Minus, m, scale)
}

} // verus!
