use vstd::arithmetic::power::pow;
use vstd::prelude::*;
use crate::text::{int_text, int_text_accepted, int_text_value};

verus! {

/// Value of a little-endian byte sequence read as an unsigned magnitude.
pub open spec fn le_value(b: Seq<u8>) -> nat
    decreases b.len(),
{
    if b.len() == 0 {
        0
    } else {
        le_value(b.drop_last()) + b.last() as nat * pow256((b.len() - 1) as nat)
    }
}

pub open spec fn pow256(n: nat) -> nat
    decreases n,
{
    if n == 0 {
        1
    } else {
        256 * pow256((n - 1) as nat)
    }
}

/// Value of a sign flag and a little-endian magnitude.
pub open spec fn sm_value(negative: bool, mag: Seq<u8>) -> int {
    if negative {
        -(le_value(mag) as int)
    } else {
        le_value(mag) as int
    }
}

/// A magnitude with no redundant high zero bytes.
pub open spec fn is_trimmed(mag: Seq<u8>) -> bool {
    mag.len() == 0 || mag.last() != 0
}

pub proof fn lemma_pow256_pos(n: nat)
    ensures
        pow256(n) >= 1,
    decreases n,
{
    if n > 0 {
        lemma_pow256_pos((n - 1) as nat);
    }
}

/// A magnitude is below `256^len`.
pub proof fn lemma_le_value_bound(b: Seq<u8>)
    ensures
        le_value(b) < pow256(b.len()),
    decreases b.len(),
{
    if b.len() > 0 {
        lemma_le_value_bound(b.drop_last());
        let p = pow256((b.len() - 1) as nat);
        assert(b.last() as nat * p <= 255 * p) by (nonlinear_arith)
            requires
                b.last() <= 255,
        ;
    }
}

/// A trimmed, non-empty magnitude is at least `256^(len - 1)`.
pub proof fn lemma_le_value_low(b: Seq<u8>)
    requires
        b.len() > 0,
        b.last() != 0,
    ensures
        le_value(b) >= pow256((b.len() - 1) as nat),
{
    let p = pow256((b.len() - 1) as nat);
    assert(b.last() as nat * p >= p) by (nonlinear_arith)
        requires
            b.last() >= 1,
    ;
}

/// Appending high zero bytes keeps the value.
pub proof fn lemma_le_value_zeros(b: Seq<u8>, n: nat)
    ensures
        le_value(b + Seq::new(n, |i: int| 0u8)) == le_value(b),
    decreases n,
{
    if n > 0 {
        let z = Seq::new(n, |i: int| 0u8);
        let z1 = Seq::new((n - 1) as nat, |i: int| 0u8);
        assert((b + z).drop_last() =~= b + z1);
        assert((b + z).last() == 0u8);
        lemma_le_value_zeros(b, (n - 1) as nat);
    } else {
        assert(b + Seq::new(n, |i: int| 0u8) =~= b);
    }
}

/// Quotient rounded toward zero.
pub open spec fn trunc_div(a: int, b: int) -> int {
    let q = abs(a) / abs(b);
    if (a < 0) != (b < 0) {
        -q
    } else {
        q as int
    }
}

/// Remainder of the quotient rounded toward zero; it takes the dividend's sign.
pub open spec fn trunc_rem(a: int, b: int) -> int {
    a - b * trunc_div(a, b)
}

pub open spec fn abs(a: int) -> nat {
    if a < 0 {
        (-a) as nat
    } else {
        a as nat
    }
}

/// Number of bits needed to write `n` in binary.
pub open spec fn bit_len(n: nat) -> nat
    decreases n,
{
    if n == 0 {
        0
    } else {
        1 + bit_len(n / 2)
    }
}

/// Value of little-endian bytes in two's complement.
pub open spec fn signed_le_value(b: Seq<u8>) -> int {
    if b.len() > 0 && b.last() >= 128 {
        le_value(b) - pow256(b.len())
    } else {
        le_value(b) as int
    }
}

/// Copies a byte slice into a vector.
pub fn copy_bytes(b: &[u8]) -> (r: Vec<u8>)
    ensures
        r@ == b@,
{
    let mut r: Vec<u8> = Vec::new();
    let mut i: usize = 0;
    while i < b.len()
        invariant
            i <= b@.len(),
            r@ == b@.subrange(0, i as int),
        decreases b@.len() - i,
    {
        r.push(b[i]);
        i += 1;
    }
    assert(r@ =~= b@);
    r
}

pub proof fn lemma_pow256_mono(i: nat, j: nat)
    requires
        i <= j,
    ensures
        pow256(i) <= pow256(j),
    decreases j,
{
    if i < j {
        lemma_pow256_mono(i, (j - 1) as nat);
        lemma_pow256_pos((j - 1) as nat);
    }
}

/// A trimmed magnitude below `256^n` has at most `n` bytes.
pub proof fn lemma_trimmed_len(b: Seq<u8>, n: nat)
    requires
        is_trimmed(b),
        le_value(b) < pow256(n),
    ensures
        b.len() <= n,
{
    if b.len() > n {
        lemma_le_value_low(b);
        lemma_pow256_mono(n, (b.len() - 1) as nat);
    }
}

/// Reverses a byte sequence.
pub open spec fn reversed(b: Seq<u8>) -> Seq<u8> {
    Seq::new(b.len(), |i: int| b[b.len() - 1 - i])
}

/// `2^64`, `2^255` and `2^256` as powers of 256.
pub open spec fn two_pow_64() -> nat {
    pow256(8)
}

pub open spec fn two_pow_255() -> nat {
    128 * pow256(31)
}

pub open spec fn two_pow_256() -> nat {
    pow256(32)
}

/// Integer text that does not parse.
#[derive(PartialEq, Eq, Structural, Clone, Copy, Debug)]
pub struct BigIntParseError;

/// Every `u64` lies in the range that `to_u64` narrows back from.
pub proof fn lemma_u64_in_range(n: u64)
    ensures
        0 <= n < two_pow_64(),
{
    reveal_with_fuel(pow256, 9);
}

/// The 256-bit two's-complement encoding that `to_signed_u256` promises
/// reads back, through `from_signed_u256`, as the value it was made from.
pub proof fn lemma_signed_u256_round_trip(r: Seq<u8>, v: int)
    requires
        r.len() == 32,
        -(two_pow_255() as int) <= v < two_pow_255(),
        le_value(r) == (if v < 0 {
            v + two_pow_256()
        } else {
            v
        }),
    ensures
        signed_le_value(r) == v,
{
    let p = pow256(31);
    let low = le_value(r.drop_last());
    let top = r.last() as int;
    lemma_le_value_bound(r.drop_last());
    lemma_pow256_pos(31);
    assert(pow256(32) == 256 * p);
    assert(le_value(r) == low + top * p);
    if v < 0 {
        assert(top >= 128) by (nonlinear_arith)
            requires
                low + top * p >= 128 * p,
                0 <= low < p,
                p >= 1,
        ;
    } else {
        assert(top < 128) by (nonlinear_arith)
            requires
                low + top * p < 128 * p,
                0 <= low,
                p >= 1,
        ;
    }
}

/// Two byte sequences of one length with one value are equal.
pub proof fn lemma_le_value_injective(a: Seq<u8>, b: Seq<u8>)
    requires
        a.len() == b.len(),
        le_value(a) == le_value(b),
    ensures
        a == b,
    decreases a.len(),
{
    if a.len() > 0 {
        let p = pow256((a.len() - 1) as nat) as int;
        let la = le_value(a.drop_last()) as int;
        let lb = le_value(b.drop_last()) as int;
        let x = a.last() as int;
        let y = b.last() as int;
        lemma_le_value_bound(a.drop_last());
        lemma_le_value_bound(b.drop_last());
        assert(la + x * p == lb + y * p);
        if x < y {
            assert((y - x) * p >= p) by (nonlinear_arith)
                requires
                    y - x >= 1,
                    p >= 0,
            ;
            assert(x * p + (y - x) * p == y * p) by (nonlinear_arith);
        } else if x > y {
            assert((x - y) * p >= p) by (nonlinear_arith)
                requires
                    x - y >= 1,
                    p >= 0,
            ;
            assert(y * p + (x - y) * p == x * p) by (nonlinear_arith);
        }
        lemma_le_value_injective(a.drop_last(), b.drop_last());
        assert(a =~= a.drop_last().push(a.last()));
        assert(b =~= b.drop_last().push(b.last()));
    } else {
        assert(a =~= b);
    }
}

/// 256-bit bytes read as unsigned, then written back as `to_unsigned_u256`
/// promises, are the same bytes.
pub proof fn lemma_unsigned_u256_bytes_round_trip(b: Seq<u8>, r: Seq<u8>)
    requires
        b.len() == 32,
        r.len() == 32,
        le_value(r) == le_value(b),
    ensures
        0 <= le_value(b) < two_pow_256(),
        r == b,
{
    lemma_le_value_bound(b);
    lemma_le_value_injective(r, b);
}

/// 256-bit bytes read as two's complement lie in the signed range, and
/// written back as `to_signed_u256` promises are the same bytes.
pub proof fn lemma_signed_u256_bytes_round_trip(b: Seq<u8>, r: Seq<u8>)
    requires
        b.len() == 32,
        r.len() == 32,
        le_value(r) == (if signed_le_value(b) < 0 {
            signed_le_value(b) + two_pow_256()
        } else {
            signed_le_value(b)
        }),
    ensures
        -(two_pow_255() as int) <= signed_le_value(b) < two_pow_255(),
        r == b,
{
    let p = pow256(31) as int;
    let low = le_value(b.drop_last()) as int;
    let top = b.last() as int;
    lemma_le_value_bound(b);
    lemma_le_value_bound(b.drop_last());
    lemma_pow256_pos(31);
    assert(pow256(32) == 256 * p);
    assert(le_value(b) == low + top * p);
    if top >= 128 {
        assert(top * p >= 128 * p) by (nonlinear_arith)
            requires
                top >= 128,
                p >= 1,
        ;
    } else {
        assert(top * p <= 127 * p) by (nonlinear_arith)
            requires
                top <= 127,
                p >= 1,
        ;
    }
    lemma_le_value_injective(r, b);
}

/// Sign of an integer, as the ledger's binary encodings report it.
#[derive(PartialEq, Eq, Structural, Clone, Copy, Debug)]
pub enum BigIntSign {
    Minus,
    NoSign,
    Plus,
}

/// Why an integer does not fit a narrower type.
#[derive(PartialEq, Eq, Structural, Clone, Copy, Debug)]
pub enum BigIntOutOfRangeError {
    Negative,
    Overflow,
}

/// A signed integer of unbounded magnitude.
#[derive(Clone, Debug, PartialEq, Eq)]
pub struct BigInt {
    pub(crate) negative: bool,
    pub(crate) magnitude: Vec<u8>,
}

impl BigInt {
    /// The mathematical value.
    pub closed spec fn value(&self) -> int {
        sm_value(self.negative, self.magnitude@)
    }

    /// The little-endian magnitude bytes.
    pub closed spec fn mag(&self) -> Seq<u8> {
        self.magnitude@
    }

    /// The sign flag.
    pub closed spec fn is_neg(&self) -> bool {
        self.negative
    }

    /// One value has one representation: the magnitude is trimmed and zero
    /// is never negative.
    pub closed spec fn wf(&self) -> bool {
        is_trimmed(self.magnitude@) && (self.magnitude@.len() == 0 ==> !self.negative)
    }

    /// Builds the canonical integer of a sign and a magnitude.
    pub fn from_sign_magnitude(negative: bool, magnitude: Vec<u8>) -> (r: BigInt)
        ensures
            r.wf(),
            r.value() == sm_value(negative, magnitude@),
    {
        let mut mag = magnitude;
        while mag.len() > 0 && mag[mag.len() - 1] == 0
            invariant
                le_value(mag@) == le_value(magnitude@),
            decreases mag.len(),
        {
            mag.pop();
        }
        let neg = negative && mag.len() > 0;
        BigInt { negative: neg, magnitude: mag }
    }

    /// Reads little-endian bytes as a non-negative magnitude.
    pub fn from_unsigned_bytes_le(bytes: &[u8]) -> (r: BigInt)
        ensures
            r.wf(),
            r.value() == le_value(bytes@),
    {
        BigInt::from_sign_magnitude(false, copy_bytes(bytes))
    }

    /// A copy with the same value and representation.
    pub fn copy(&self) -> (r: BigInt)
        ensures
            r.value() == self.value(),
            r.wf() == self.wf(),
            r.mag() == self.mag(),
            r.is_neg() == self.is_neg(),
    {
        BigInt { negative: self.negative, magnitude: copy_bytes(self.magnitude.as_slice()) }
    }

    /// Reads little-endian bytes as a two's-complement integer.
    pub fn from_signed_bytes_le(bytes: &[u8]) -> (r: BigInt)
        ensures
            r.wf(),
            r.value() == signed_le_value(bytes@),
    {
        let (neg, mag) = num_from_signed_le(bytes);
        BigInt::from_sign_magnitude(neg, mag)
    }

    /// The sign and the little-endian magnitude; zero gives one zero byte.
    pub fn to_bytes_le(&self) -> (r: (BigIntSign, Vec<u8>))
        requires
            self.wf(),
        ensures
            r.0 == (if self.value() < 0 {
                BigIntSign::Minus
            } else if self.value() == 0 {
                BigIntSign::NoSign
            } else {
                BigIntSign::Plus
            }),
            r.1@ == (if self.value() == 0 {
                seq![0u8]
            } else {
                self.mag()
            }),
            le_value(r.1@) == abs(self.value()),
            self.value() != 0 ==> r.1@.last() != 0,
    {
        if self.magnitude.len() == 0 {
            proof {
                assert(seq![0u8].drop_last() =~= Seq::<u8>::empty());
                assert(le_value(seq![0u8]) == le_value(Seq::<u8>::empty()) + 0 * pow256(0));
                assert(le_value(self.magnitude@) == 0);
                assert(self.value() == 0);
            }
            let mut z: Vec<u8> = Vec::new();
            z.push(0u8);
            assert(z@ =~= seq![0u8]);
            (BigIntSign::NoSign, z)
        } else {
            proof {
                lemma_le_value_low(self.magnitude@);
                lemma_pow256_pos((self.magnitude@.len() - 1) as nat);
            }
            let sign = if self.negative {
                BigIntSign::Minus
            } else {
                BigIntSign::Plus
            };
            assert(abs(self.value()) == le_value(self.magnitude@));
            (sign, copy_bytes(self.magnitude.as_slice()))
        }
    }

    /// The sign and the big-endian magnitude; zero gives one zero byte.
    pub fn to_bytes_be(&self) -> (r: (BigIntSign, Vec<u8>))
        requires
            self.wf(),
        ensures
            r.0 == self.to_bytes_le_spec().0,
            r.1@ == reversed(self.to_bytes_le_spec().1),
    {
        let (sign, le) = self.to_bytes_le();
        let mut be: Vec<u8> = Vec::new();
        let mut i: usize = le.len();
        while i > 0
            invariant
                i <= le@.len(),
                be@.len() == le@.len() - i,
                forall|k: int| 0 <= k < be@.len() ==> be@[k] == le@[le@.len() - 1 - k],
            decreases i,
        {
            i -= 1;
            be.push(le[i]);
        }
        assert(be@ =~= reversed(le@));
        (sign, be)
    }

    /// What `to_bytes_le` returns, as a spec value.
    pub open spec fn to_bytes_le_spec(&self) -> (BigIntSign, Seq<u8>) {
        (
            if self.value() < 0 {
                BigIntSign::Minus
            } else if self.value() == 0 {
                BigIntSign::NoSign
            } else {
                BigIntSign::Plus
            },
            if self.value() == 0 {
                seq![0u8]
            } else {
                self.mag()
            },
        )
    }

    /// The shortest two's-complement little-endian bytes.
    pub fn to_signed_bytes_le(&self) -> (r: Vec<u8>)
        ensures
            signed_le_value(r@) == self.value(),
            r@.len() >= 1,
            r@.len() > 1 ==> signed_le_value(r@.drop_last()) != self.value(),
    {
        num_to_signed_le(self)
    }

    /// Narrows to `u64`, failing on a negative or too large value.
    pub fn try_to_u64(&self) -> (r: Result<u64, BigIntOutOfRangeError>)
        requires
            self.wf(),
        ensures
            r == Err::<u64, BigIntOutOfRangeError>(BigIntOutOfRangeError::Negative) <==> self.value() < 0,
            r == Err::<u64, BigIntOutOfRangeError>(BigIntOutOfRangeError::Overflow) <==> self.value() >= two_pow_64(),
            r is Ok ==> r->Ok_0 as int == self.value(),
    {
        if self.negative {
            proof {
                lemma_le_value_low(self.magnitude@);
                lemma_pow256_pos((self.magnitude@.len() - 1) as nat);
            }
            return Err(BigIntOutOfRangeError::Negative);
        }
        if self.magnitude.len() > 8 {
            proof {
                lemma_le_value_low(self.magnitude@);
                lemma_pow256_mono(8, (self.magnitude@.len() - 1) as nat);
            }
            return Err(BigIntOutOfRangeError::Overflow);
        }
        proof {
            reveal_with_fuel(pow256, 9);
        }
        let mut n: u128 = 0;
        let mut factor: u128 = 1;
        let mut i: usize = 0;
        while i < self.magnitude.len()
            invariant
                self.magnitude@.len() <= 8,
                i <= self.magnitude@.len(),
                n as nat == le_value(self.magnitude@.take(i as int)),
                i < self.magnitude@.len() ==> factor as nat == pow256(i as nat),
                factor as nat <= pow256(8),
                pow256(8) == 18446744073709551616nat,
            decreases self.magnitude@.len() - i,
        {
            let ghost t = self.magnitude@.take(i as int);
            let ghost t1 = self.magnitude@.take(i + 1);
            proof {
                assert(t1.drop_last() =~= t);
                lemma_le_value_bound(t);
                lemma_pow256_mono(i as nat, 8);
                lemma_pow256_mono(i as nat + 1, 8);
                let b = self.magnitude@[i as int] as nat;
                let f = factor as nat;
                assert(b * f <= 255 * f) by (nonlinear_arith)
                    requires
                        b <= 255,
                ;
            }
            n = n + (self.magnitude[i] as u128) * factor;
            if i + 1 < self.magnitude.len() {
                proof {
                    assert(pow256(i as nat + 1) == 256 * pow256(i as nat));
                }
                factor = factor * 256;
            }
            i += 1;
            proof {
                if i < self.magnitude@.len() {
                    assert(factor as nat == pow256(i as nat));
                }
            }
        }
        proof {
            assert(self.magnitude@.take(i as int) =~= self.magnitude@);
            lemma_le_value_bound(self.magnitude@);
            lemma_pow256_mono(self.magnitude@.len(), 8);
        }
        Ok(n as u64)
    }

    /// Narrows to `u64`; the value must lie in its range.
    pub fn to_u64(&self) -> (r: u64)
        requires
            self.wf(),
            0 <= self.value() < two_pow_64(),
        ensures
            r as int == self.value(),
    {
        let r = self.try_to_u64();
        match r {
            Ok(n) => n,
            Err(e) => {
                proof {
                    assert(r == Err::<u64, BigIntOutOfRangeError>(e));
                }
                0
            },
        }
    }

    /// Reads a 256-bit little-endian value as unsigned.
    pub fn from_unsigned_u256(n: &[u8; 32]) -> (r: BigInt)
        ensures
            r.wf(),
            r.value() == le_value(n@),
    {
        BigInt::from_unsigned_bytes_le(n.as_slice())
    }

    /// Reads a 256-bit little-endian value as two's complement.
    pub fn from_signed_u256(n: &[u8; 32]) -> (r: BigInt)
        ensures
            r.wf(),
            r.value() == signed_le_value(n@),
    {
        BigInt::from_signed_bytes_le(n.as_slice())
    }

    /// The 256-bit little-endian unsigned encoding; the value must be
    /// non-negative and below `2^256`.
    pub fn to_unsigned_u256(&self) -> (r: [u8; 32])
        requires
            self.wf(),
            0 <= self.value() < two_pow_256(),
        ensures
            le_value(r@) == self.value(),
    {
        proof {
            lemma_trimmed_len(self.magnitude@, 32);
        }
        let mut out: [u8; 32] = [0u8; 32];
        let mut i: usize = 0;
        while i < self.magnitude.len()
            invariant
                self.magnitude@.len() <= 32,
                i <= self.magnitude@.len(),
                out@.len() == 32,
                forall|k: int| 0 <= k < i ==> out@[k] == self.magnitude@[k],
                forall|k: int| self.magnitude@.len() <= k < 32 ==> out@[k] == 0u8,
            decreases self.magnitude@.len() - i,
        {
            out.set(i, self.magnitude[i]);
            i += 1;
        }
        proof {
            let z = Seq::new((32 - self.magnitude@.len()) as nat, |k: int| 0u8);
            assert(out@ =~= self.magnitude@ + z);
            lemma_le_value_zeros(self.magnitude@, z.len());
        }
        out
    }

    /// The 256-bit two's-complement little-endian encoding; the value must
    /// lie in `[-2^255, 2^255)`.
    pub fn to_signed_u256(&self) -> (r: [u8; 32])
        requires
            self.wf(),
            -(two_pow_255() as int) <= self.value() < two_pow_255(),
        ensures
            le_value(r@) == (if self.value() < 0 {
                self.value() + two_pow_256()
            } else {
                self.value()
            }),
    {
        proof {
            assert(pow256(32) == 256 * pow256(31));
            lemma_pow256_pos(31);
        }
        if self.is_negative() {
            let shifted = self.add_ref(&BigInt::two_pow_256_int());
            shifted.to_unsigned_u256()
        } else {
            self.to_unsigned_u256()
        }
    }

    /// The integer `2^256`.
    fn two_pow_256_int() -> (r: BigInt)
        ensures
            r.wf(),
            r.value() == two_pow_256(),
    {
        let mut m: Vec<u8> = Vec::new();
        let mut i: usize = 0;
        while i < 32
            invariant
                i <= 32,
                m@ =~= Seq::new(i as nat, |k: int| 0u8),
            decreases 32 - i,
        {
            m.push(0u8);
            i += 1;
        }
        m.push(1u8);
        proof {
            let z = Seq::new(32, |k: int| 0u8);
            assert(m@.drop_last() =~= Seq::<u8>::empty() + z);
            lemma_le_value_zeros(Seq::<u8>::empty(), 32);
        }
        BigInt::from_sign_magnitude(false, m)
    }

    /// Raises to a small power, exactly.
    pub fn pow(self, exponent: u8) -> (r: BigInt)
        ensures
            r.wf(),
            r.value() == pow(self.value(), exponent as nat),
    {
        let (neg, mag) = num_pow(&self, exponent);
        BigInt::from_sign_magnitude(neg, mag)
    }

    /// Number of bits in the magnitude.
    pub fn bits(&self) -> (r: u64)
        ensures
            r as nat == bit_len(abs(self.value())),
    {
        num_bits(self) as u64
    }

    fn add_ref(&self, other: &BigInt) -> (r: BigInt)
        ensures
            r.wf(),
            r.value() == self.value() + other.value(),
    {
        let (neg, mag) = num_add(self, other);
        BigInt::from_sign_magnitude(neg, mag)
    }

    /// The exact sum.
    pub fn add(self, other: BigInt) -> (r: BigInt)
        ensures
            r.wf(),
            r.value() == self.value() + other.value(),
    {
        self.add_ref(&other)
    }

    /// The exact difference.
    pub fn sub(self, other: BigInt) -> (r: BigInt)
        ensures
            r.wf(),
            r.value() == self.value() - other.value(),
    {
        let (neg, mag) = num_sub(&self, &other);
        BigInt::from_sign_magnitude(neg, mag)
    }

    /// The exact product.
    pub fn mul(self, other: BigInt) -> (r: BigInt)
        ensures
            r.wf(),
            r.value() == self.value() * other.value(),
    {
        let (neg, mag) = num_mul(&self, &other);
        BigInt::from_sign_magnitude(neg, mag)
    }

    /// The quotient rounded toward zero; dividing by zero is a caller error.
    pub fn div(self, other: BigInt) -> (r: BigInt)
        requires
            other.value() != 0,
        ensures
            r.wf(),
            r.value() == trunc_div(self.value(), other.value()),
    {
        let (neg, mag) = num_div(&self, &other);
        BigInt::from_sign_magnitude(neg, mag)
    }

    /// The remainder that goes with `div`; it takes the dividend's sign.
    pub fn rem(self, other: BigInt) -> (r: BigInt)
        requires
            other.value() != 0,
        ensures
            r.wf(),
            r.value() == trunc_rem(self.value(), other.value()),
    {
        let (neg, mag) = num_rem(&self, &other);
        BigInt::from_sign_magnitude(neg, mag)
    }

    /// The integer of a native `i64`.
    pub fn from_i64(n: i64) -> (r: BigInt)
        ensures
            r.wf(),
            r.value() == n as int,
    {
        let (neg, mag) = num_from_i64(n);
        BigInt::from_sign_magnitude(neg, mag)
    }

    /// The integer of a native `u64`.
    pub fn from_u64(n: u64) -> (r: BigInt)
        ensures
            r.wf(),
            r.value() == n as int,
    {
        let (neg, mag) = num_from_u64(n);
        BigInt::from_sign_magnitude(neg, mag)
    }

    /// Parses base-10 text: an optional `-` or `+`, then digits, which may
    /// be separated by `_` after the first.
    pub fn from_str(s: &str) -> (r: Result<BigInt, BigIntParseError>)
        ensures
            r is Ok <==> int_text_accepted(s@),
            r is Ok ==> r->Ok_0.wf() && r->Ok_0.value() == int_text_value(s@),
    {
        match num_parse(s) {
            Ok((neg, mag)) => Ok(BigInt::from_sign_magnitude(neg, mag)),
            Err(_) => Err(BigIntParseError),
        }
    }

    /// Base-10 text, with a leading `-` when negative.
    pub fn to_string(&self) -> (r: String)
        ensures
            r@ == int_text(self.value()),
    {
        num_to_string(self)
    }

    /// The decimal `self * 10^exp`; the exponent must fit an `i64` whose
    /// negation also fits.
    pub fn to_big_decimal(self, exp: BigInt) -> (r: crate::decimal::BigDecimal)
        requires
            self.wf(),
            exp.wf(),
            i64::MIN < exp.value() <= i64::MAX,
        ensures
            r.wf(),
            (r.mant(), r.exp()) == crate::decimal::norm(self.value(), exp.value()),
    {
        let e: i64 = if exp.is_negative() {
            let n = BigInt::from_u64(0).sub(exp);
            proof {
                reveal_with_fuel(pow256, 9);
            }
            -(n.to_u64() as i64)
        } else {
            proof {
                reveal_with_fuel(pow256, 9);
            }
            exp.to_u64() as i64
        };
        crate::decimal::BigDecimal::new(self, e)
    }

    /// What a content hash is fed: the sign flag and the trimmed
    /// little-endian magnitude, which depend on the value alone.
    pub fn hash_parts(&self) -> (r: (bool, Vec<u8>))
        requires
            self.wf(),
        ensures
            r.0 == (self.value() < 0),
            is_trimmed(r.1@),
            le_value(r.1@) == abs(self.value()),
    {
        let neg = self.is_negative();
        (neg, copy_bytes(self.magnitude.as_slice()))
    }

    /// Numeric comparison.
    pub fn compare(&self, other: &BigInt) -> (r: std::cmp::Ordering)
        ensures
            (r == std::cmp::Ordering::Less) == (self.value() < other.value()),
            (r == std::cmp::Ordering::Equal) == (self.value() == other.value()),
            (r == std::cmp::Ordering::Greater) == (self.value() > other.value()),
    {
        let d = self.copy().sub(other.copy());
        if d.is_negative() {
            std::cmp::Ordering::Less
        } else if d.is_zero() {
            std::cmp::Ordering::Equal
        } else {
            std::cmp::Ordering::Greater
        }
    }

    /// Tells whether the value is below zero.
    pub fn is_negative(&self) -> (r: bool)
        requires
            self.wf(),
        ensures
            r == (self.value() < 0),
    {
        if self.negative {
            proof {
                lemma_le_value_low(self.magnitude@);
                lemma_pow256_pos((self.magnitude@.len() - 1) as nat);
            }
        }
        self.negative
    }

    /// Tells whether the value is zero.
    pub fn is_zero(&self) -> (r: bool)
        requires
            self.wf(),
        ensures
            r == (self.value() == 0),
    {
        if self.magnitude.len() > 0 {
            proof {
                lemma_le_value_low(self.magnitude@);
                lemma_pow256_pos((self.magnitude@.len() - 1) as nat);
            }
        }
        self.magnitude.len() == 0
    }
}

impl From<i32> for BigInt {
    fn from(n: i32) -> BigInt {
        BigInt::from_i64(n as i64)
    }
}

impl From<i64> for BigInt {
    fn from(n: i64) -> BigInt {
        BigInt::from_i64(n)
    }
}

impl From<u64> for BigInt {
    fn from(n: u64) -> BigInt {
        BigInt::from_u64(n)
    }
}

impl vstd::std_specs::convert::FromSpecImpl<i32> for BigInt {
    open spec fn obeys_from_spec() -> bool {
        false
    }

    open spec fn from_spec(v: i32) -> BigInt {
        arbitrary()
    }
}

impl vstd::std_specs::convert::FromSpecImpl<i64> for BigInt {
    open spec fn obeys_from_spec() -> bool {
        false
    }

    open spec fn from_spec(v: i64) -> BigInt {
        arbitrary()
    }
}

impl vstd::std_specs::convert::FromSpecImpl<u64> for BigInt {
    open spec fn obeys_from_spec() -> bool {
        false
    }

    open spec fn from_spec(v: u64) -> BigInt {
        arbitrary()
    }
}

/// Relies on num_bigint's `BigInt + BigInt`: the exact sum.
#[verifier::external_body]
fn num_add(a: &BigInt, b: &BigInt) -> (r: (bool, Vec<u8>))
    ensures
        sm_value(r.0, r.1@) == a.value() + b.value(),
{
    let x = num_bigint::BigInt::from_bytes_le(if a.negative { num_bigint::Sign::Minus } else { num_bigint::Sign::Plus }, &a.magnitude);
    let y = num_bigint::BigInt::from_bytes_le(if b.negative { num_bigint::Sign::Minus } else { num_bigint::Sign::Plus }, &b.magnitude);
    let (s, m) = (x + y).to_bytes_le();
    (s == num_bigint::Sign::Minus, m)
}

/// Relies on num_bigint's `BigInt - BigInt`: the exact difference.
#[verifier::external_body]
fn num_sub(a: &BigInt, b: &BigInt) -> (r: (bool, Vec<u8>))
    ensures
        sm_value(r.0, r.1@) == a.value() - b.value(),
{
    let x = num_bigint::BigInt::from_bytes_le(if a.negative { num_bigint::Sign::Minus } else { num_bigint::Sign::Plus }, &a.magnitude);
    let y = num_bigint::BigInt::from_bytes_le(if b.negative { num_bigint::Sign::Minus } else { num_bigint::Sign::Plus }, &b.magnitude);
    let (s, m) = (x - y).to_bytes_le();
    (s == num_bigint::Sign::Minus, m)
}

/// Relies on num_bigint's `BigInt * BigInt`: the exact product.
#[verifier::external_body]
fn num_mul(a: &BigInt, b: &BigInt) -> (r: (bool, Vec<u8>))
    ensures
        sm_value(r.0, r.1@) == a.value() * b.value(),
{
    let x = num_bigint::BigInt::from_bytes_le(if a.negative { num_bigint::Sign::Minus } else { num_bigint::Sign::Plus }, &a.magnitude);
    let y = num_bigint::BigInt::from_bytes_le(if b.negative { num_bigint::Sign::Minus } else { num_bigint::Sign::Plus }, &b.magnitude);
    let (s, m) = (x * y).to_bytes_le();
    (s == num_bigint::Sign::Minus, m)
}

/// Relies on num_bigint's `BigInt / BigInt`: the quotient rounded toward
/// zero; it panics on a zero divisor.
#[verifier::external_body]
fn num_div(a: &BigInt, b: &BigInt) -> (r: (bool, Vec<u8>))
    requires
        b.value() != 0,
    ensures
        sm_value(r.0, r.1@) == trunc_div(a.value(), b.value()),
{
    let x = num_bigint::BigInt::from_bytes_le(if a.negative { num_bigint::Sign::Minus } else { num_bigint::Sign::Plus }, &a.magnitude);
    let y = num_bigint::BigInt::from_bytes_le(if b.negative { num_bigint::Sign::Minus } else { num_bigint::Sign::Plus }, &b.magnitude);
    let (s, m) = (x / y).to_bytes_le();
    (s == num_bigint::Sign::Minus, m)
}

/// Relies on num_bigint's `BigInt % BigInt`: the remainder that goes with
/// the quotient rounded toward zero; it panics on a zero divisor.
#[verifier::external_body]
fn num_rem(a: &BigInt, b: &BigInt) -> (r: (bool, Vec<u8>))
    requires
        b.value() != 0,
    ensures
        sm_value(r.0, r.1@) == trunc_rem(a.value(), b.value()),
{
    let x = num_bigint::BigInt::from_bytes_le(if a.negative { num_bigint::Sign::Minus } else { num_bigint::Sign::Plus }, &a.magnitude);
    let y = num_bigint::BigInt::from_bytes_le(if b.negative { num_bigint::Sign::Minus } else { num_bigint::Sign::Plus }, &b.magnitude);
    let (s, m) = (x % y).to_bytes_le();
    (s == num_bigint::Sign::Minus, m)
}

/// Relies on num_traits' `Pow<&u8>` for num_bigint's `BigInt`: the exact power.
#[verifier::external_body]
fn num_pow(a: &BigInt, e: u8) -> (r: (bool, Vec<u8>))
    ensures
        sm_value(r.0, r.1@) == pow(a.value(), e as nat),
{
    let x = num_bigint::BigInt::from_bytes_le(if a.negative { num_bigint::Sign::Minus } else { num_bigint::Sign::Plus }, &a.magnitude);
    let (s, m) = num_traits::pow::Pow::pow(&x, &e).to_bytes_le();
    (s == num_bigint::Sign::Minus, m)
}

/// Relies on num_bigint's `BigInt::bits`: the bit length of the magnitude.
#[verifier::external_body]
fn num_bits(a: &BigInt) -> (r: usize)
    ensures
        r as nat == bit_len(le_value(a.magnitude@)),
{
    num_bigint::BigInt::from_bytes_le(num_bigint::Sign::Plus, &a.magnitude).bits()
}

/// Relies on num_bigint's `BigInt::from_signed_bytes_le`: two's complement.
#[verifier::external_body]
fn num_from_signed_le(b: &[u8]) -> (r: (bool, Vec<u8>))
    ensures
        sm_value(r.0, r.1@) == signed_le_value(b@),
{
    let (s, m) = num_bigint::BigInt::from_signed_bytes_le(b).to_bytes_le();
    (s == num_bigint::Sign::Minus, m)
}

/// Relies on num_bigint's `BigInt::to_signed_bytes_le`: the shortest two's
/// complement, one byte at least.
#[verifier::external_body]
fn num_to_signed_le(a: &BigInt) -> (r: Vec<u8>)
    ensures
        signed_le_value(r@) == a.value(),
        r@.len() >= 1,
        r@.len() > 1 ==> signed_le_value(r@.drop_last()) != a.value(),
{
    num_bigint::BigInt::from_bytes_le(if a.negative { num_bigint::Sign::Minus } else { num_bigint::Sign::Plus }, &a.magnitude).to_signed_bytes_le()
}

#[verifier::external_type_specification]
#[verifier::external_body]
pub struct ExParseBigIntError(num_bigint::ParseBigIntError);

/// Relies on num_bigint's `FromStr for BigInt`: an optional sign, then
/// base-10 digits with `_` allowed after the first digit.
#[verifier::external_body]
fn num_parse(s: &str) -> (r: Result<(bool, Vec<u8>), num_bigint::ParseBigIntError>)
    ensures
        r is Ok <==> int_text_accepted(s@),
        r is Ok ==> sm_value(r->Ok_0.0, r->Ok_0.1@) == int_text_value(s@),
{
    let (sign, m) = <num_bigint::BigInt as std::str::FromStr>::from_str(s)?.to_bytes_le();
    Ok((sign == num_bigint::Sign::Minus, m))
}

/// Relies on num_bigint's `Display for BigInt`: base-10 digits after a `-`
/// for a negative value.
#[verifier::external_body]
fn num_to_string(a: &BigInt) -> (r: String)
    ensures
        r@ == int_text(a.value()),
{
    num_bigint::BigInt::from_bytes_le(if a.negative { num_bigint::Sign::Minus } else { num_bigint::Sign::Plus }, &a.magnitude).to_string()
}

/// Relies on num_bigint's `From<i64> for BigInt`: the same value.
#[verifier::external_body]
fn num_from_i64(n: i64) -> (r: (bool, Vec<u8>))
    ensures
        sm_value(r.0, r.1@) == n as int,
{
    let (s, m) = num_bigint::BigInt::from(n).to_bytes_le();
    (s == num_bigint::Sign::Minus, m)
}

/// Relies on num_bigint's `From<u64> for BigInt`: the same value.
#[verifier::external_body]
fn num_from_u64(n: u64) -> (r: (bool, Vec<u8>))
    ensures
        sm_value(r.0, r.1@) == n as int,
{
    let (s, m) = num_bigint::BigInt::from(n).to_bytes_le();
    (s == num_bigint::Sign::Minus, m)
}

} // verus!
