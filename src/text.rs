use vstd::prelude::*;

verus! {

pub open spec fn is_dec_digit(c: char) -> bool {
    '0' <= c && c <= '9'
}

pub open spec fn digit_val(c: char) -> nat {
    (c as int - '0' as int) as nat
}

/// The character of a decimal digit.
pub open spec fn digit_char(d: nat) -> char {
    if d == 0 {
        '0'
    } else if d == 1 {
        '1'
    } else if d == 2 {
        '2'
    } else if d == 3 {
        '3'
    } else if d == 4 {
        '4'
    } else if d == 5 {
        '5'
    } else if d == 6 {
        '6'
    } else if d == 7 {
        '7'
    } else if d == 8 {
        '8'
    } else {
        '9'
    }
}

/// Base-10 digits of a natural number, most significant first, no leading zero.
pub open spec fn nat_text(n: nat) -> Seq<char>
    decreases n,
{
    if n < 10 {
        seq![digit_char(n)]
    } else {
        nat_text(n / 10) + seq![digit_char(n % 10)]
    }
}

/// Base-10 text of an integer, with a leading `-` when negative.
pub open spec fn int_text(v: int) -> Seq<char> {
    if v < 0 {
        seq!['-'] + nat_text((-v) as nat)
    } else {
        nat_text(v as nat)
    }
}

/// A run of digits that starts with a digit and may hold `_` separators.
pub open spec fn is_digit_run(s: Seq<char>) -> bool {
    s.len() > 0 && is_dec_digit(s[0]) && forall|i: int|
        0 <= i < s.len() ==> (is_dec_digit(#[trigger] s[i]) || s[i] == '_')
}

/// Value of a digit run; separators are skipped.
pub open spec fn digit_run_value(s: Seq<char>) -> nat
    decreases s.len(),
{
    if s.len() == 0 {
        0
    } else if s.last() == '_' {
        digit_run_value(s.drop_last())
    } else {
        digit_run_value(s.drop_last()) * 10 + digit_val(s.last())
    }
}

/// Integer text that parsing accepts: an optional sign, then a digit run.
pub open spec fn int_text_accepted(s: Seq<char>) -> bool {
    is_digit_run(s) || (s.len() > 0 && (s[0] == '-' || s[0] == '+') && is_digit_run(s.skip(1)))
}

/// Value of accepted integer text.
pub open spec fn int_text_value(s: Seq<char>) -> int {
    if s.len() > 0 && s[0] == '-' {
        -(digit_run_value(s.skip(1)) as int)
    } else if s.len() > 0 && s[0] == '+' {
        digit_run_value(s.skip(1)) as int
    } else {
        digit_run_value(s) as int
    }
}

pub open spec fn zeros_text(n: int) -> Seq<char> {
    Seq::new(n as nat, |i: int| '0')
}

/// Standard decimal notation of `m * 10^e`, as exact decimal formatting
/// writes it: no exponent, a point only when the exponent is negative.
pub open spec fn decimal_text(m: int, e: int) -> Seq<char> {
    let d = nat_text(if m < 0 { (-m) as nat } else { m as nat });
    let l = d.len() as int;
    let s = -e;
    let body = if s >= l {
        seq!['0', '.'] + zeros_text(s - l) + d
    } else if s <= 0 {
        d + zeros_text(-s)
    } else {
        d.take(l - s) + seq!['.'] + d.skip(l - s)
    };
    if m < 0 {
        seq!['-'] + body
    } else {
        body
    }
}

/// Whether the text holds an exponent marker.
pub open spec fn has_exponent_marker(s: Seq<char>) -> bool {
    exists|i: int| 0 <= i < s.len() && (s[i] == 'e' || s[i] == 'E')
}

pub open spec fn without_dots(s: Seq<char>) -> Seq<char> {
    s.filter(|c: char| c != '.')
}

pub open spec fn dot_count(s: Seq<char>) -> nat {
    s.filter(|c: char| c == '.').len()
}

/// Number of characters after the last `.`, or all of them when there is none.
pub open spec fn len_after_dot(s: Seq<char>) -> nat
    decreases s.len(),
{
    if s.len() == 0 || s.last() == '.' {
        0
    } else {
        len_after_dot(s.drop_last()) + 1
    }
}

/// Decimal text without an exponent that parsing accepts: at most one `.`,
/// and what remains without it is accepted integer text.
pub open spec fn decimal_text_accepted(s: Seq<char>) -> bool {
    dot_count(s) <= 1 && int_text_accepted(without_dots(s))
}

/// The unscaled value of accepted decimal text.
pub open spec fn decimal_text_mantissa(s: Seq<char>) -> int {
    int_text_value(without_dots(s))
}

/// The power of ten of accepted decimal text: minus the digits after the point.
pub open spec fn decimal_text_exponent(s: Seq<char>) -> int {
    if dot_count(s) == 0 {
        0
    } else {
        -(len_after_dot(s) as int)
    }
}

} // verus!
