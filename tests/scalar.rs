use graph_scalar::{
    BigDecimal, BigDecimalParseError, BigInt, BigIntOutOfRangeError, BigIntSign, Bytes,
    BytesParseError,
};
use stable_hash::utils::AsInt;
use std::cmp::Ordering;
use stable_hash::{fast_stable_hash, FieldAddress, StableHash};

struct IntHash(bool, Vec<u8>);

impl StableHash for IntHash {
    fn stable_hash<H: stable_hash::StableHasher>(&self, field_address: H::Addr, state: &mut H) {
        AsInt { is_negative: self.0, little_endian: &self.1 }.stable_hash(field_address, state)
    }
}

struct DecimalHash(i64, bool, Vec<u8>);

impl StableHash for DecimalHash {
    fn stable_hash<H: stable_hash::StableHasher>(&self, field_address: H::Addr, state: &mut H) {
        self.0.stable_hash(field_address.child(0), state);
        AsInt { is_negative: self.1, little_endian: &self.2 }.stable_hash(field_address, state)
    }
}

fn int_hash(n: &BigInt) -> u128 {
    let (neg, mag) = n.hash_parts();
    fast_stable_hash(&IntHash(neg, mag))
}

fn decimal_hash(d: &BigDecimal) -> u128 {
    let (scale, neg, mag) = d.hash_parts();
    fast_stable_hash(&DecimalHash(scale, neg, mag))
}

#[test]
fn bigint_to_from_u64() {
    for n in 0..100 {
        let bn = BigInt::from(n as u64);
        assert_eq!(n, bn.to_u64());
    }
}

#[test]
fn big_int_stable_hash_same_as_int() {
    assert_eq!(fast_stable_hash(&0), int_hash(&BigInt::from(0u64)));
    assert_eq!(fast_stable_hash(&1), int_hash(&BigInt::from(1u64)));
    assert_eq!(fast_stable_hash(&(1u64 << 20)), int_hash(&BigInt::from(1u64 << 20)));

    assert_eq!(
        fast_stable_hash(&-1),
        int_hash(&BigInt::from_signed_bytes_le(&(-1i32).to_le_bytes()))
    );
}

#[test]
fn big_decimal_stable_hash_same_as_uint() {
    assert_eq!(fast_stable_hash(&0), decimal_hash(&BigDecimal::from(0u64)));
    assert_eq!(fast_stable_hash(&4), decimal_hash(&BigDecimal::from(4i64)));
    assert_eq!(fast_stable_hash(&(1u64 << 21)), decimal_hash(&BigDecimal::from(1u64 << 21)));
}

#[test]
fn big_decimal_hash_tells_sign_apart() {
    let a = BigDecimal::from_str("0.1").unwrap();
    let b = BigDecimal::from_str("-0.1").unwrap();
    let c = BigDecimal::from_str("0.10").unwrap();
    assert_ne!(decimal_hash(&a), decimal_hash(&b));
    assert_eq!(decimal_hash(&a), decimal_hash(&c));
}

#[test]
fn test_normalize() {
    let vals = vec![
        (BigDecimal::new(BigInt::from(10), -2), BigDecimal::new(BigInt::from(1), -1), "0.1"),
        (
            BigDecimal::new(BigInt::from(132400), 4),
            BigDecimal::new(BigInt::from(1324), 6),
            "1324000000",
        ),
        (BigDecimal::new(BigInt::from(1_900_000), -3), BigDecimal::new(BigInt::from(19), 2), "1900"),
        (BigDecimal::new(BigInt::from(0), 3), BigDecimal::zero(), "0"),
        (BigDecimal::new(BigInt::from(0), -5), BigDecimal::zero(), "0"),
    ];

    for (not_normalized, normalized, string) in vals {
        assert_eq!(not_normalized.normalized(), normalized);
        assert_eq!(not_normalized.normalized().to_string(), string);
        assert_eq!(normalized.to_string(), string);
    }
}

#[test]
fn normalize_twice_is_once() {
    let d = BigDecimal::new(BigInt::from(-120000), -7);
    assert_eq!(d.normalized().normalized(), d.normalized());
    let (m, e) = d.as_bigint_and_exponent();
    assert_eq!(m.to_string(), "-12");
    assert_eq!(e, -3);
    assert_eq!(d.to_string(), "-0.012");
}

#[test]
fn zero_at_any_exponent_is_zero() {
    for e in [i64::MIN, -1000, -1, 0, 1, 77, i64::MAX] {
        let d = BigDecimal::new(BigInt::from(0), e);
        assert_eq!(d, BigDecimal::zero());
        assert_eq!(d.to_string(), "0");
        let (m, e2) = d.as_bigint_and_exponent();
        assert_eq!(m, BigInt::from(0));
        assert_eq!(e2, 0);
    }
}

#[test]
fn u64_round_trip() {
    for n in [0u64, 1, 255, 256, 1 << 40, u64::MAX - 1, u64::MAX] {
        assert_eq!(BigInt::from(n).to_u64(), n);
        assert_eq!(BigInt::from(n).try_to_u64(), Ok(n));
    }
}

#[test]
fn u64_narrowing_errors() {
    assert_eq!(BigInt::from(-1).try_to_u64(), Err(BigIntOutOfRangeError::Negative));
    let big = BigInt::from(u64::MAX).add(BigInt::from(1));
    assert_eq!(big.try_to_u64(), Err(BigIntOutOfRangeError::Overflow));
    assert_eq!(big.to_string(), "18446744073709551616");
}

#[test]
fn u256_round_trip() {
    let mut bytes = [0u8; 32];
    for (i, b) in bytes.iter_mut().enumerate() {
        *b = (i * 7 + 3) as u8;
    }
    let n = BigInt::from_unsigned_u256(&bytes);
    assert_eq!(n.to_unsigned_u256(), bytes);
    let s = BigInt::from_signed_u256(&bytes);
    assert_eq!(s.to_signed_u256(), bytes);

    let mut neg = bytes;
    neg[31] = 0xf0;
    let s = BigInt::from_signed_u256(&neg);
    assert!(s.is_negative());
    assert_eq!(s.to_signed_u256(), neg);
}

#[test]
fn signed_u256_minus_one_and_bounds() {
    assert_eq!(BigInt::from(-1).to_signed_u256(), [0xffu8; 32]);
    assert_eq!(BigInt::from_signed_u256(&[0xffu8; 32]), BigInt::from(-1));

    let mut max = [0xffu8; 32];
    max[31] = 0x7f;
    let top = BigInt::from_signed_u256(&max);
    assert!(!top.is_negative());
    assert_eq!(top.to_signed_u256(), max);
    assert_eq!(top.bits(), 255);

    let mut min = [0u8; 32];
    min[31] = 0x80;
    let bottom = BigInt::from_signed_u256(&min);
    assert_eq!(bottom.to_string(), format!("-{}", BigInt::from(2).pow(255).to_string()));
    assert_eq!(bottom.to_signed_u256(), min);
}

#[test]
fn byte_views() {
    let n = BigInt::from(-0x0102i64);
    assert_eq!(n.to_bytes_le(), (BigIntSign::Minus, vec![2, 1]));
    assert_eq!(n.to_bytes_be(), (BigIntSign::Minus, vec![1, 2]));
    assert_eq!(n.to_signed_bytes_le(), vec![0xfe, 0xfe]);
    assert_eq!(BigInt::from(0).to_bytes_le(), (BigIntSign::NoSign, vec![0]));
    assert_eq!(BigInt::from(300).to_bytes_le(), (BigIntSign::Plus, vec![44, 1]));
    assert_eq!(BigInt::from_unsigned_bytes_le(&[5, 0, 0]), BigInt::from(5));
    assert_eq!(BigInt::from_signed_bytes_le(&[0xff]), BigInt::from(-1));
    assert_eq!(BigInt::from_signed_bytes_le(&[0x80, 0x00]), BigInt::from(128));
}

#[test]
fn integer_arithmetic() {
    assert_eq!(BigInt::from(7).add(BigInt::from(-10)), BigInt::from(-3));
    assert_eq!(BigInt::from(7).sub(BigInt::from(10)), BigInt::from(-3));
    assert_eq!(BigInt::from(-7).mul(BigInt::from(6)), BigInt::from(-42));
    assert_eq!(BigInt::from(-7).div(BigInt::from(2)), BigInt::from(-3));
    assert_eq!(BigInt::from(-7).rem(BigInt::from(2)), BigInt::from(-1));
    assert_eq!(BigInt::from(7).div(BigInt::from(-2)), BigInt::from(-3));
    assert_eq!(BigInt::from(7).rem(BigInt::from(-2)), BigInt::from(1));
    assert_eq!(BigInt::from(10).pow(20).to_string(), "100000000000000000000");
    assert_eq!(BigInt::from(-2).pow(3), BigInt::from(-8));
    assert_eq!(BigInt::from(0).bits(), 0);
    assert_eq!(BigInt::from(255).bits(), 8);
    assert_eq!(BigInt::from(-256).bits(), 9);
}

#[test]
fn integer_text() {
    assert_eq!(BigInt::from_str("-1234").unwrap(), BigInt::from(-1234));
    assert_eq!(BigInt::from_str("+42").unwrap(), BigInt::from(42));
    assert_eq!(BigInt::from_str("1_000").unwrap(), BigInt::from(1000));
    assert!(BigInt::from_str("").is_err());
    assert!(BigInt::from_str("-").is_err());
    assert!(BigInt::from_str("_1").is_err());
    assert!(BigInt::from_str("-+1").is_err());
    assert!(BigInt::from_str("12a").is_err());
    assert_eq!(BigInt::from(-905).to_string(), "-905");
    assert_eq!(BigInt::from(0).to_string(), "0");
}

#[test]
fn decimal_text() {
    let d = BigDecimal::from_str("-12.500").unwrap();
    assert_eq!(d, BigDecimal::new(BigInt::from(-125), -1));
    assert_eq!(d.to_string(), "-12.5");
    assert_eq!(BigDecimal::from_str("1.").unwrap().to_string(), "1");
    assert_eq!(BigDecimal::from_str(".5").unwrap().to_string(), "0.5");
    assert_eq!(BigDecimal::from_str("1e3").unwrap_err(), BigDecimalParseError::Exponent);
    assert_eq!(BigDecimal::from_str("1.2.3").unwrap_err(), BigDecimalParseError::Invalid);
    assert_eq!(BigDecimal::from_str("abc").unwrap_err(), BigDecimalParseError::Invalid);
    assert_eq!(BigDecimal::from_str("").unwrap_err(), BigDecimalParseError::Invalid);
    assert_eq!(BigDecimal::new(BigInt::from(5), -3).to_string(), "0.005");
}

#[test]
fn decimal_arithmetic() {
    let a = BigDecimal::from_str("1.25").unwrap();
    let b = BigDecimal::from_str("0.75").unwrap();
    assert_eq!(a.clone().add(b.clone()), BigDecimal::from(2));
    assert_eq!(a.clone().sub(b.clone()).to_string(), "0.5");
    assert_eq!(a.clone().mul(b.clone()).to_string(), "0.9375");
    assert_eq!(BigDecimal::from(1).div(BigDecimal::from(4)).to_string(), "0.25");
    assert_eq!(
        BigDecimal::from(10).checked_div(BigDecimal::from(4)).unwrap().to_string(),
        "2.5"
    );
    assert_eq!(BigDecimal::from(1000).mul(BigDecimal::from(1000)).as_bigint_and_exponent().1, 6);
}

#[test]
fn decimal_from_integer_and_exponent() {
    let d = BigInt::from(1500).to_big_decimal(BigInt::from(-2));
    assert_eq!(d.to_string(), "15");
    let d = BigInt::from(3).to_big_decimal(BigInt::from(-4));
    assert_eq!(d.to_string(), "0.0003");
}

#[test]
fn hex_round_trip() {
    let raw: Vec<u8> = vec![0x00, 0x1a, 0x2b, 0xff];
    let b = Bytes::from_slice(&raw);
    assert_eq!(b.to_string(), "0x001a2bff");
    let back = Bytes::from_str(&b.to_string()).unwrap();
    assert_eq!(back, b);
    assert_eq!(back.as_slice(), &raw[..]);
    assert_eq!(Bytes::from_slice(&[]).to_string(), "0x");
}

#[test]
fn hex_parse_prefix_and_case() {
    assert_eq!(Bytes::from_str("0x1a2b").unwrap().as_slice(), &[0x1a, 0x2b]);
    assert_eq!(Bytes::from_str("1A2B").unwrap().as_slice(), &[0x1a, 0x2b]);
    assert_eq!(Bytes::from_str("0X1a2b").unwrap().as_slice(), &[0x1a, 0x2b]);
    assert_eq!(Bytes::from_str("0x0x12").unwrap_err(), BytesParseError::MalformedHex);
    assert_eq!(Bytes::from_str("0x").unwrap().as_slice(), &[] as &[u8]);
    assert_eq!(Bytes::from_str("0x1a2").unwrap_err(), BytesParseError::MalformedHex);
    assert_eq!(Bytes::from_str("0xzz").unwrap_err(), BytesParseError::MalformedHex);
}

#[test]
fn decimal_digit_count() {
    assert_eq!(BigDecimal::zero().digits(), 1);
    assert_eq!(BigDecimal::from_str("123.45").unwrap().digits(), 5);
    assert_eq!(BigDecimal::from(1000).digits(), 1);
    assert_eq!(BigDecimal::from(999).digits(), 3);
}

#[test]
fn numeric_comparison() {
    assert_eq!(BigInt::from(-5).compare(&BigInt::from(3)), Ordering::Less);
    assert_eq!(BigInt::from(300).compare(&BigInt::from(256)), Ordering::Greater);
    assert_eq!(BigInt::from(7).compare(&BigInt::from(7)), Ordering::Equal);
    let a = BigDecimal::from_str("0.15").unwrap();
    let b = BigDecimal::from_str("0.2").unwrap();
    assert_eq!(a.compare(&b), Ordering::Less);
    assert_eq!(b.compare(&a), Ordering::Greater);
    assert_eq!(BigDecimal::from(100).compare(&BigDecimal::from_str("100.0").unwrap()), Ordering::Equal);
    assert_eq!(BigDecimal::from(-1).compare(&BigDecimal::from_str("-0.5").unwrap()), Ordering::Less);
}

#[test]
fn big_decimal_stable() {
    let cases = vec![(181745098936733907021518655505145702128u128, "0.1"), (109650463577748232559796029315645807013u128, "-0.1")];
    for case in cases.iter() {
        let dec = BigDecimal::from_str(case.1).unwrap();
        assert_eq!(case.0, decimal_hash(&dec), "{}", case.1);
    }
}

#[test]
fn signed_bytes_are_shortest() {
    assert_eq!(BigInt::from(0).to_signed_bytes_le(), vec![0]);
    assert_eq!(BigInt::from(127).to_signed_bytes_le(), vec![0x7f]);
    assert_eq!(BigInt::from(128).to_signed_bytes_le(), vec![0x80, 0]);
    assert_eq!(BigInt::from(-128).to_signed_bytes_le(), vec![0x80]);
    assert_eq!(BigInt::from(-129).to_signed_bytes_le(), vec![0x7f, 0xff]);
    assert_eq!(BigInt::from(-256).to_signed_bytes_le(), vec![0x00, 0xff]);
}

#[test]
fn decimal_division_needs_exponent_room() {
    let tiny = BigDecimal::new(BigInt::from(1), i64::MIN + 1);
    let ten = BigDecimal::new(BigInt::from(1), 1);
    assert!(tiny.checked_div(ten).is_none());
    let third = BigDecimal::from(1).checked_div(BigDecimal::from(3)).unwrap();
    assert_eq!(third.digits(), 100);
}

#[test]
fn decimal_to_native_integers() {
    assert_eq!(BigDecimal::from_str("12.9").unwrap().to_i64(), Some(12));
    assert_eq!(BigDecimal::from_str("-12.9").unwrap().to_i64(), Some(-12));
    assert_eq!(BigDecimal::from_str("-12.9").unwrap().to_u64(), None);
    assert_eq!(BigDecimal::from_str("-0.5").unwrap().to_u64(), None);
    assert_eq!(BigDecimal::from_str("0.5").unwrap().to_u64(), Some(0));
    assert_eq!(BigDecimal::new(BigInt::from(15), 3).to_u64(), Some(15000));
    assert_eq!(BigDecimal::from(i64::MIN).to_i64(), Some(i64::MIN));
    assert_eq!(BigDecimal::from(u64::MAX).to_u64(), Some(u64::MAX));
    assert_eq!(BigDecimal::from(u64::MAX).to_i64(), None);
    assert_eq!(BigDecimal::new(BigInt::from(1), 19).to_u64(), Some(10_000_000_000_000_000_000));
    assert_eq!(BigDecimal::new(BigInt::from(1), 20).to_u64(), None);
    assert_eq!(BigDecimal::new(BigInt::from(7), -400).to_i64(), Some(0));
}
