//! Decimal numbers in text, both ways, and lowercase hexadecimal.

use vstd::prelude::*;
use crate::text::chars_of;

verus! {

/// The character of the decimal digit `d`.
pub open spec fn digit_char(d: int) -> char {
    if 0 <= d <= 9 {
        (d + 48) as char
    } else {
        '?'
    }
}

/// The decimal digits of `n`, most significant first, without leading zeros.
pub open spec fn decimal_seq(n: nat) -> Seq<char>
    decreases n,
{
    if n < 10 {
        seq![digit_char(n as int)]
    } else {
        decimal_seq(n / 10).push(digit_char((n % 10) as int))
    }
}

/// `n` in decimal, with a leading `-` when negative, as `Display` for integers.
pub open spec fn signed_decimal_seq(n: int) -> Seq<char> {
    if n < 0 {
        seq!['-'] + decimal_seq((-n) as nat)
    } else {
        decimal_seq(n as nat)
    }
}

/// The text of a decimal digit.
fn digit_str(d: u64) -> (r: &'static str)
    requires
        d < 10,
    ensures
        r@ == seq![digit_char(d as int)],
{
    proof {
        reveal_strlit("0");
        reveal_strlit("1");
        reveal_strlit("2");
        reveal_strlit("3");
        reveal_strlit("4");
        reveal_strlit("5");
        reveal_strlit("6");
        reveal_strlit("7");
        reveal_strlit("8");
        reveal_strlit("9");
    }
    let r = match d {
        0 => "0",
        1 => "1",
        2 => "2",
        3 => "3",
        4 => "4",
        5 => "5",
        6 => "6",
        7 => "7",
        8 => "8",
        _ => "9",
    };
    assert(r@ =~= seq![digit_char(d as int)]);
    r
}

/// `n` in decimal.
pub fn u64_to_decimal(n: u64) -> (r: String)
    ensures
        r@ == decimal_seq(n as nat),
    decreases n,
{
    if n < 10 {
        String::from_str(digit_str(n))
    } else {
        let mut s = u64_to_decimal(n / 10);
        s.append(digit_str(n % 10));
        assert(s@ =~= decimal_seq(n as nat));
        s
    }
}

/// `n` in decimal, with a leading `-` when negative.
pub fn i64_to_decimal(n: i64) -> (r: String)
    ensures
        r@ == signed_decimal_seq(n as int),
{
    if n < 0 {
        let m: u64 = (-(n as i128)) as u64;
        let mut r = String::from_str("-");
        proof {
            reveal_strlit("-");
        }
        let d = u64_to_decimal(m);
        r.append(d.as_str());
        assert(r@ =~= signed_decimal_seq(n as int));
        r
    } else {
        u64_to_decimal(n as u64)
    }
}

/// Whether `c` is an ASCII decimal digit.
pub open spec fn is_digit(c: char) -> bool {
    '0' <= c <= '9'
}

/// The value of a run of decimal digits.
pub open spec fn digits_value(s: Seq<char>) -> nat
    decreases s.len(),
{
    if s.len() == 0 {
        0
    } else {
        digits_value(s.drop_last()) * 10 + ((s.last() as int - 48) as nat)
    }
}

/// The digits that follow the sign, if any, of a number in text; the sign
/// `-` is taken only where `signed` holds.
pub open spec fn unsigned_part(s: Seq<char>, signed: bool) -> Seq<char> {
    if s.len() > 0 && (s[0] == '+' || (signed && s[0] == '-')) {
        s.drop_first()
    } else {
        s
    }
}

/// Whether the text is negative: it starts with `-` and the type is signed.
pub open spec fn is_negative_text(s: Seq<char>, signed: bool) -> bool {
    signed && s.len() > 0 && s[0] == '-'
}

/// What `str::parse` gives for an integer type with bounds `min` and `max`:
/// an optional sign, then one or more decimal digits, whose value lies in
/// the bounds.
pub open spec fn parse_int_seq(s: Seq<char>, signed: bool, min: int, max: int) -> Option<int> {
    let digits = unsigned_part(s, signed);
    let value: int = if is_negative_text(s, signed) {
        -(digits_value(digits) as int)
    } else {
        digits_value(digits) as int
    };
    if digits.len() > 0 && (forall|i: int| 0 <= i < digits.len() ==> is_digit(#[trigger] digits[i]))
        && min <= value <= max {
        Some(value)
    } else {
        None
    }
}

/// Parse an integer with bounds `min` and `max`, which must lie within
/// what 64 bits hold.
fn parse_int(s: &str, signed: bool, min: i128, max: i128) -> (r: Option<i128>)
    requires
        -0x8000_0000_0000_0000 <= min <= 0 <= max <= 0xffff_ffff_ffff_ffff,
    ensures
        match r {
            Some(v) => parse_int_seq(s@, signed, min as int, max as int) == Some(v as int),
            None => parse_int_seq(s@, signed, min as int, max as int) is None,
        },
{
    let cs = chars_of(s);
    let n = cs.len();
    let mut start: usize = 0;
    let mut negative = false;
    if n > 0 && (cs[0] == '+' || (signed && cs[0] == '-')) {
        negative = cs[0] == '-';
        start = 1;
    }
    let ghost digits = unsigned_part(s@, signed);
    assert(digits =~= cs@.subrange(start as int, n as int));
    assert(negative == is_negative_text(s@, signed));
    if start == n {
        return None;
    }
    // The value of the digits read so far, held at `cap` once it passes it.
    let cap: u128 = 0x1_0000_0000_0000_0001;
    let mut value: u128 = 0;
    let mut i = start;
    assert(cs@.subrange(start as int, start as int) =~= Seq::<char>::empty());
    while i < n
        invariant
            cs@ == s@,
            n == cs@.len(),
            start <= i <= n,
            digits == cs@.subrange(start as int, n as int),
            digits == unsigned_part(s@, signed),
            cap == 0x1_0000_0000_0000_0001,
            forall|j: int| start <= j < i ==> is_digit(#[trigger] cs@[j]),
            value <= cap,
            value < cap ==> value == digits_value(cs@.subrange(start as int, i as int)),
            value == cap ==> digits_value(cs@.subrange(start as int, i as int)) >= cap,
        decreases n - i,
    {
        let c = cs[i];
        if !('0' <= c && c <= '9') {
            assert(digits[i - start] == c);
            assert(!is_digit(digits[i - start]));
            return None;
        }
        let d = (c as u32 - 48) as u128;
        let ghost pre = cs@.subrange(start as int, i as int);
        let ghost next = cs@.subrange(start as int, i + 1);
        assert(next.drop_last() =~= pre);
        assert(next.last() == c);
        assert(digits_value(next) == digits_value(pre) * 10 + d);
        if value < cap {
            let v = value * 10 + d;
            if v >= cap {
                value = cap;
            } else {
                value = v;
            }
        } else {
            assert(digits_value(next) >= cap) by (nonlinear_arith)
                requires
                    digits_value(next) == digits_value(pre) * 10 + d,
                    digits_value(pre) >= cap,
                    cap > 0,
            ;
        }
        i = i + 1;
    }
    assert(forall|j: int| 0 <= j < digits.len() ==> #[trigger] digits[j] == cs@[start + j]);
    if negative {
        if value > (-min) as u128 {
            return None;
        }
        Some(-(value as i128))
    } else {
        if value > max as u128 {
            return None;
        }
        Some(value as i128)
    }
}

/// Parse a signed 64-bit integer, as `str::parse::<i64>`.
pub fn parse_i64(s: &str) -> (r: Option<i64>)
    ensures
        match r {
            Some(v) => parse_int_seq(s@, true, i64::MIN as int, i64::MAX as int) == Some(v as int),
            None => parse_int_seq(s@, true, i64::MIN as int, i64::MAX as int) is None,
        },
{
    match parse_int(s, true, i64::MIN as i128, i64::MAX as i128) {
        Some(v) => Some(v as i64),
        None => None,
    }
}

/// Parse an unsigned 32-bit integer, as `str::parse::<u32>`.
pub fn parse_u32(s: &str) -> (r: Option<u32>)
    ensures
        match r {
            Some(v) => parse_int_seq(s@, false, 0, u32::MAX as int) == Some(v as int),
            None => parse_int_seq(s@, false, 0, u32::MAX as int) is None,
        },
{
    match parse_int(s, false, 0, u32::MAX as i128) {
        Some(v) => Some(v as u32),
        None => None,
    }
}

/// Parse an unsigned 16-bit integer, as `str::parse::<u16>`.
pub fn parse_u16(s: &str) -> (r: Option<u16>)
    ensures
        match r {
            Some(v) => parse_int_seq(s@, false, 0, u16::MAX as int) == Some(v as int),
            None => parse_int_seq(s@, false, 0, u16::MAX as int) is None,
        },
{
    match parse_int(s, false, 0, u16::MAX as i128) {
        Some(v) => Some(v as u16),
        None => None,
    }
}

/// Whether `c` is an ASCII hexadecimal digit, in either case.
pub open spec fn is_hex_digit(c: char) -> bool {
    ('0' <= c <= '9') || ('a' <= c <= 'f') || ('A' <= c <= 'F')
}

/// Whether `c` is a lowercase hexadecimal digit.
pub open spec fn is_lower_hex_digit(c: char) -> bool {
    ('0' <= c <= '9') || ('a' <= c <= 'f')
}

/// The lowercase hexadecimal character for a value below 16.
pub open spec fn lower_hex_char(v: int) -> char {
    if v < 10 {
        (v + 48) as char
    } else {
        (v + 87) as char
    }
}

/// Two lowercase hexadecimal characters for each byte, high half first.
pub open spec fn lower_hex_seq(bytes: Seq<u8>) -> Seq<char>
    decreases bytes.len(),
{
    if bytes.len() == 0 {
        Seq::<char>::empty()
    } else {
        lower_hex_seq(bytes.drop_last()) + seq![
            lower_hex_char(bytes.last() as int / 16),
            lower_hex_char(bytes.last() as int % 16),
        ]
    }
}

/// The lowercase hexadecimal text of `bytes` has twice as many characters,
/// each of them a lowercase hexadecimal digit.
pub proof fn lemma_lower_hex_shape(bytes: Seq<u8>)
    ensures
        lower_hex_seq(bytes).len() == 2 * bytes.len(),
        forall|i: int| 0 <= i < lower_hex_seq(bytes).len() ==> is_lower_hex_digit(#[trigger] lower_hex_seq(bytes)[i]),
    decreases bytes.len(),
{
    if bytes.len() > 0 {
        lemma_lower_hex_shape(bytes.drop_last());
        let rest = lower_hex_seq(bytes.drop_last());
        let whole = lower_hex_seq(bytes);
        assert forall|i: int| 0 <= i < whole.len() implies is_lower_hex_digit(#[trigger] whole[i]) by {
            if i < rest.len() {
                assert(whole[i] == rest[i]);
            }
        }
    }
}

/// The decimal text of a number is a non-empty run of digits whose value
/// is the number.
proof fn lemma_decimal_digits(n: nat)
    ensures
        decimal_seq(n).len() > 0,
        forall|i: int| 0 <= i < decimal_seq(n).len() ==> is_digit(#[trigger] decimal_seq(n)[i]),
        digits_value(decimal_seq(n)) == n,
    decreases n,
{
    if n < 10 {
        let t = decimal_seq(n);
        assert(t.drop_last() =~= Seq::<char>::empty());
        assert(t.last() as int == n + 48);
        assert(digits_value(t) == digits_value(t.drop_last()) * 10 + ((t.last() as int - 48) as nat));
        assert(digits_value(t.drop_last()) == 0);
    } else {
        lemma_decimal_digits(n / 10);
        let s = decimal_seq(n / 10);
        let t = decimal_seq(n);
        assert(t.drop_last() =~= s);
        assert(t.last() as int == (n % 10) + 48);
        assert((n / 10) * 10 + n % 10 == n);
        assert(digits_value(t) == digits_value(t.drop_last()) * 10 + ((t.last() as int - 48) as nat));
        assert(digits_value(t.drop_last()) == n / 10);
        assert forall|i: int| 0 <= i < t.len() implies is_digit(#[trigger] t[i]) by {
            if i < s.len() {
                assert(t[i] == s[i]);
            }
        }
    }
}

/// Parsing reads back what the decimal text of a number says: the digits
/// of `n` give `n`, with a leading `+` too, and after a `-` give `-n` for
/// a signed type, whenever the value lies in the bounds; no text without
/// a digit, nor a `-` for an unsigned type, is a number.
pub proof fn law_parse_reads_decimal(n: nat, signed: bool, min: int, max: int, s: Seq<char>)
    ensures
        min <= n <= max ==> parse_int_seq(decimal_seq(n), signed, min, max) == Some(n as int),
        min <= n <= max ==> parse_int_seq(seq!['+'] + decimal_seq(n), signed, min, max) == Some(n as int),
        signed && min <= -n <= max ==> parse_int_seq(seq!['-'] + decimal_seq(n), true, min, max) == Some(
            -n,
        ),
        parse_int_seq(seq!['-'] + decimal_seq(n), false, min, max) is None,
        parse_int_seq(Seq::<char>::empty(), signed, min, max) is None,
        parse_int_seq(seq!['-'], signed, min, max) is None,
        parse_int_seq(seq!['+'], signed, min, max) is None,
        (s.len() > 0 && forall|i: int| 0 <= i < s.len() ==> !is_digit(#[trigger] s[i])) ==> parse_int_seq(
            s,
            signed,
            min,
            max,
        ) is None,
{
    lemma_decimal_digits(n);
    let d = decimal_seq(n);
    assert(is_digit(d[0]));
    assert((seq!['+'] + d).drop_first() =~= d);
    assert((seq!['-'] + d).drop_first() =~= d);
    assert(!is_digit((seq!['-'] + d)[0]));
    assert(seq!['-'].drop_first() =~= Seq::<char>::empty());
    assert(seq!['+'].drop_first() =~= Seq::<char>::empty());
    if s.len() > 0 && forall|i: int| 0 <= i < s.len() ==> !is_digit(#[trigger] s[i]) {
        let u = unsigned_part(s, signed);
        if u.len() > 0 {
            if u =~= s.drop_first() {
                assert(!is_digit(s[1]));
                assert(u[0] == s[1]);
            } else {
                assert(!is_digit(s[0]));
            }
        }
    }
}

} // verus!
