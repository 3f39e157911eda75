use vstd::prelude::*;
use vstd::string::{StrSliceExecFns, StringExecFns};

verus! {

/// Lowercase hex digit of a value below 16.
pub open spec fn hex_digit(d: nat) -> char {
    if d < 10 {
        crate::text::digit_char(d)
    } else if d == 10 {
        'a'
    } else if d == 11 {
        'b'
    } else if d == 12 {
        'c'
    } else if d == 13 {
        'd'
    } else if d == 14 {
        'e'
    } else {
        'f'
    }
}

pub open spec fn is_hex_char(c: char) -> bool {
    ('0' <= c && c <= '9') || ('a' <= c && c <= 'f') || ('A' <= c && c <= 'F')
}

/// Value of a hex digit of either case.
pub open spec fn hex_val(c: char) -> nat {
    if '0' <= c && c <= '9' {
        (c as int - '0' as int) as nat
    } else if 'a' <= c && c <= 'f' {
        (c as int - 'a' as int + 10) as nat
    } else {
        (c as int - 'A' as int + 10) as nat
    }
}

/// Two lowercase hex digits per byte, in order.
pub open spec fn hex_text(b: Seq<u8>) -> Seq<char>
    decreases b.len(),
{
    if b.len() == 0 {
        Seq::empty()
    } else {
        hex_text(b.drop_last()) + seq![hex_digit(b.last() as nat / 16), hex_digit(b.last() as nat % 16)]
    }
}

/// Text that hex decoding accepts: an even number of hex digits.
pub open spec fn hex_ok(t: Seq<char>) -> bool {
    t.len() % 2 == 0 && forall|i: int| 0 <= i < t.len() ==> is_hex_char(#[trigger] t[i])
}

/// The bytes that accepted hex text stands for.
pub open spec fn hex_bytes(t: Seq<char>) -> Seq<u8>
    decreases t.len(),
{
    if t.len() < 2 {
        Seq::empty()
    } else {
        hex_bytes(t.take(t.len() - 2)) + seq![(hex_val(t[t.len() - 2]) * 16 + hex_val(t.last())) as u8]
    }
}

/// The text with one optional leading `0x` or `0X` removed.
pub open spec fn strip_0x(s: Seq<char>) -> Seq<char> {
    if s.len() >= 2 && s[0] == '0' && (s[1] == 'x' || s[1] == 'X') {
        s.skip(2)
    } else {
        s
    }
}

proof fn lemma_hex_digit(d: nat)
    requires
        d < 16,
    ensures
        is_hex_char(hex_digit(d)),
        hex_val(hex_digit(d)) == d,
        hex_digit(d) != 'x',
{
}

proof fn lemma_hex_text(b: Seq<u8>)
    ensures
        hex_text(b).len() == 2 * b.len(),
        hex_ok(hex_text(b)),
        hex_bytes(hex_text(b)) == b,
    decreases b.len(),
{
    if b.len() > 0 {
        let x = b.last() as nat;
        lemma_hex_text(b.drop_last());
        lemma_hex_digit(x / 16);
        lemma_hex_digit(x % 16);
        let t = hex_text(b);
        assert(t.take(t.len() - 2) =~= hex_text(b.drop_last()));
        assert((x / 16) * 16 + x % 16 == x);
        assert(b =~= b.drop_last() + seq![b.last()]);
    } else {
        assert(hex_text(b) =~= Seq::<char>::empty());
        assert(b =~= Seq::<u8>::empty());
    }
}

/// Hex text read back gives the bytes it was written from.
pub proof fn lemma_hex_round_trip(b: Seq<u8>)
    ensures
        hex_ok(strip_0x(seq!['0', 'x'] + hex_text(b))),
        hex_bytes(strip_0x(seq!['0', 'x'] + hex_text(b))) == b,
{
    lemma_hex_text(b);
    let t = hex_text(b);
    let s = seq!['0', 'x'] + t;
    assert(s.skip(2) =~= t);
    assert(s[0] == '0' && s[1] == 'x');
    assert(strip_0x(s) == t);
}

/// An immutable byte blob whose text is `0x` and lowercase hex.
#[derive(Clone, Debug, PartialEq, Eq)]
pub struct Bytes {
    data: Vec<u8>,
}

/// Text that is not hex after an optional `0x`.
#[derive(PartialEq, Eq, Structural, Clone, Copy, Debug)]
pub enum BytesParseError {
    MalformedHex,
}

impl Bytes {
    /// The bytes held.
    pub closed spec fn view(&self) -> Seq<u8> {
        self.data@
    }

    /// Copies a byte slice.
    pub fn from_slice(array: &[u8]) -> (r: Bytes)
        ensures
            r.view() == array@,
    {
        Bytes { data: crate::bigint::copy_bytes(array) }
    }

    /// The bytes held.
    pub fn as_slice(&self) -> (r: &[u8])
        ensures
            r@ == self.view(),
    {
        self.data.as_slice()
    }

    /// `0x` and two lowercase hex digits per byte.
    pub fn to_string(&self) -> (r: String)
        ensures
            r@ == seq!['0', 'x'] + hex_text(self.view()),
    {
        let digits = hex_encode(self.data.as_slice());
        let mut r = <String as StringExecFns>::from_str("0x");
        proof {
            reveal_strlit("0x");
        }
        r.append(digits.as_str());
        r
    }

    /// Parses hex text after one optional `0x` or `0X` prefix; digits of
    /// either case are accepted.
    pub fn from_str(s: &str) -> (r: Result<Bytes, BytesParseError>)
        ensures
            r is Ok <==> hex_ok(strip_0x(s@)),
            r is Ok ==> r->Ok_0.view() == hex_bytes(strip_0x(s@)),
    {
        let n = s.unicode_len();
        let t = if n >= 2 && s.get_char(0) == '0' && (s.get_char(1) == 'x' || s.get_char(1) == 'X') {
            s.substring_char(2, n)
        } else {
            s
        };
        assert(t@ =~= strip_0x(s@));
        match hex_decode(t) {
            Ok(data) => Ok(Bytes { data }),
            Err(_) => Err(BytesParseError::MalformedHex),
        }
    }
}

/// Relies on hex::encode: two lowercase hex digits per byte.
#[verifier::external_body]
fn hex_encode(b: &[u8]) -> (r: String)
    ensures
        r@ == hex_text(b@),
{
    hex::encode(b)
}

#[verifier::external_type_specification]
#[verifier::external_body]
pub struct ExFromHexError(hex::FromHexError);

/// Relies on hex::decode: an odd length or a non-hex character fails, and
/// each pair of digits, of either case, gives one byte.
#[verifier::external_body]
fn hex_decode(t: &str) -> (r: Result<Vec<u8>, hex::FromHexError>)
    ensures
        r is Ok <==> hex_ok(t@),
        r is Ok ==> r->Ok_0@ == hex_bytes(t@),
{
    hex::decode(t)
}

} // verus!
