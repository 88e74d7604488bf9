//! Numbers and bytes as text.
use vstd::prelude::*;

verus! {

/// The value of a digit, in either case; letters go on behind the ten decimal digits.
pub open spec fn digit_value(c: char) -> Option<int> {
    if '0' <= c <= '9' {
        Some(c as int - '0' as int)
    } else if 'a' <= c <= 'z' {
        Some(c as int - 'a' as int + 10)
    } else if 'A' <= c <= 'Z' {
        Some(c as int - 'A' as int + 10)
    } else {
        None
    }
}

/// The number that `digits` writes in base `radix`; none if a character is no digit of that base.
pub open spec fn number_of(digits: Seq<char>, radix: int) -> Option<int>
    decreases digits.len(),
{
    if digits.len() == 0 {
        Some(0)
    } else {
        match (number_of(digits.drop_last(), radix), digit_value(digits.last())) {
            (Some(n), Some(d)) => if d < radix {
                Some(n * radix + d)
            } else {
                None
            },
            _ => None,
        }
    }
}

/// The text behind all leading `0x`.
pub open spec fn without_hex_prefixes(s: Seq<char>) -> Seq<char>
    decreases s.len(),
{
    if s.len() >= 2 && s[0] == '0' && s[1] == 'x' {
        without_hex_prefixes(s.skip(2))
    } else {
        s
    }
}

/// The number that a text writes in base 16: any number of `0x`, then at most one `+`, then at
/// least one digit. None if the text has another form or the number does not fit into 64 bits.
pub open spec fn hex_u64_of(s: Seq<char>) -> Option<u64> {
    let signed = without_hex_prefixes(s);
    let digits = if signed.len() > 0 && signed[0] == '+' {
        signed.skip(1)
    } else {
        signed
    };
    match number_of(digits, 16) {
        Some(n) => if digits.len() > 0 && n <= u64::MAX {
            Some(n as u64)
        } else {
            None
        },
        None => None,
    }
}

/// Copies the characters of a string.
fn characters(s: &str) -> (r: Vec<char>)
    ensures
        r@ == s@,
{
    let mut chars: Vec<char> = Vec::new();
    for c in iter: s.chars()
        invariant
            iter.seq() == s@,
            chars@ == s@.take(iter.index()),
    {
        chars.push(c);
        assert(chars@ =~= s@.take(iter.index() + 1));
    }
    assert(s@.take(s@.len() as int) =~= s@);
    chars
}

/// The value of a digit of base 16.
fn hex_digit(c: char) -> (r: Option<u64>)
    ensures
        match r {
            Some(d) => d < 16 && digit_value(c) == Some(d as int),
            None => digit_value(c) is None || digit_value(c)->0 >= 16,
        },
{
    if '0' <= c && c <= '9' {
        Some((c as u64) - ('0' as u64))
    } else if 'a' <= c && c <= 'f' {
        Some((c as u64) - ('a' as u64) + 10)
    } else if 'A' <= c && c <= 'F' {
        Some((c as u64) - ('A' as u64) + 10)
    } else {
        None
    }
}

proof fn lemma_number_of_prefix(digits: Seq<char>, radix: int, i: int)
    requires
        0 <= i <= digits.len(),
        radix > 0,
    ensures
        number_of(digits, radix) is Some ==> number_of(digits.take(i), radix) is Some && 0
            <= number_of(digits.take(i), radix)->0 <= number_of(digits, radix)->0,
    decreases digits.len() - i,
{
    if i < digits.len() {
        lemma_number_of_prefix(digits, radix, i + 1);
        assert(digits.take(i + 1).drop_last() =~= digits.take(i));
        if number_of(digits, radix) is Some {
            lemma_number_of_nonnegative(digits.take(i), radix);
            let n = number_of(digits.take(i), radix)->0;
            assert(n * radix >= n) by (nonlinear_arith)
                requires
                    radix > 0,
                    n >= 0,
            ;
        }
    } else {
        assert(digits.take(i) =~= digits);
        lemma_number_of_nonnegative(digits, radix);
    }
}

proof fn lemma_number_of_nonnegative(digits: Seq<char>, radix: int)
    requires
        radix > 0,
    ensures
        number_of(digits, radix) is Some ==> number_of(digits, radix)->0 >= 0,
    decreases digits.len(),
{
    if digits.len() > 0 {
        lemma_number_of_nonnegative(digits.drop_last(), radix);
        if number_of(digits, radix) is Some {
            let n = number_of(digits.drop_last(), radix)->0;
            assert(n * radix >= 0) by (nonlinear_arith)
                requires
                    radix > 0,
                    n >= 0,
            ;
        }
    }
}

/// Reads a number written in base 16, with or without a `0x` before it.
pub fn parse_hex_u64(s: &str) -> (r: Option<u64>)
    ensures
        r == hex_u64_of(s@),
{
    let chars = characters(s);
    let mut start: usize = 0;
    assert(s@.skip(0) =~= s@);
    while chars.len() - start >= 2 && chars[start] == '0' && chars[start + 1] == 'x'
        invariant
            start <= chars.len(),
            chars@ == s@,
            without_hex_prefixes(s@) == without_hex_prefixes(s@.skip(start as int)),
        decreases chars.len() - start,
    {
        assert(s@.skip(start as int).skip(2) =~= s@.skip(start + 2));
        start += 2;
    }
    let ghost signed = s@.skip(start as int);
    assert(signed == without_hex_prefixes(s@));
    if start < chars.len() && chars[start] == '+' {
        start += 1;
    }
    let ghost digits = s@.skip(start as int);
    assert(digits =~= if signed.len() > 0 && signed[0] == '+' {
        signed.skip(1)
    } else {
        signed
    });
    if start == chars.len() {
        return None;
    }
    let mut value: u64 = 0;
    let mut i: usize = start;
    assert(digits.take(0) =~= Seq::<char>::empty());
    while i < chars.len()
        invariant
            start <= i <= chars.len(),
            start < chars.len(),
            chars@ == s@,
            digits == s@.skip(start as int),
            hex_u64_of(s@) == match number_of(digits, 16) {
                Some(n) => if n <= u64::MAX {
                    Some(n as u64)
                } else {
                    None
                },
                None => None,
            },
            number_of(digits.take(i - start), 16) == Some(value as int),
        decreases chars.len() - i,
    {
        let ghost done = digits.take(i - start + 1);
        proof {
            assert(done.drop_last() =~= digits.take(i - start));
            assert(done.last() == chars@[i as int]);
            lemma_number_of_prefix(digits, 16, i - start + 1);
        }
        match hex_digit(chars[i]) {
            None => {
                return None;
            },
            Some(d) => {
                if value > 0xfff_ffff_ffff_ffff {
                    return None;
                }
                value = value * 16 + d;
            },
        }
        i += 1;
    }
    assert(digits.take(digits.len() as int) =~= digits);
    Some(value)
}

/// The sixteen digits of base 16.
pub open spec fn hex_char(d: int) -> char {
    "0123456789abcdef"@[d]
}

/// The two lower-case hex digits of each byte.
pub open spec fn hex_digits_of(bytes: Seq<u8>) -> Seq<char>
    decreases bytes.len(),
{
    if bytes.len() == 0 {
        Seq::empty()
    } else {
        hex_digits_of(bytes.drop_last()) + seq![
            hex_char(bytes.last() as int / 16),
            hex_char(bytes.last() as int % 16),
        ]
    }
}

/// Bytes as text: `0x` and two lower-case hex digits per byte.
pub open spec fn hex_text(bytes: Seq<u8>) -> Seq<char> {
    "0x"@ + hex_digits_of(bytes)
}

/// A number as decimal text.
pub open spec fn decimal_text(n: nat) -> Seq<char>
    decreases n,
{
    if n < 10 {
        seq![hex_char(n as int)]
    } else {
        decimal_text(n / 10).push(hex_char((n % 10) as int))
    }
}

/// Appends one digit of base 16 to a text.
fn push_digit(text: &mut String, d: u8)
    requires
        d < 16,
    ensures
        final(text)@ == old(text)@.push(hex_char(d as int)),
{
    proof {
        reveal_strlit("0123456789abcdef");
    }
    let digits = "0123456789abcdef";
    assert(digits.is_ascii());
    let digit = digits.substring_ascii(d as usize, d as usize + 1);
    text.append(digit);
    assert(text@ =~= old(text)@.push(hex_char(d as int)));
}

/// Writes bytes as text: `0x` and two lower-case hex digits per byte.
pub fn bytes_to_hex(bytes: &[u8]) -> (r: String)
    ensures
        r@ == hex_text(bytes@),
{
    let mut text = String::from_str("0x");
    let mut i: usize = 0;
    assert(bytes@.take(0) =~= Seq::<u8>::empty());
    assert(text@ =~= "0x"@ + hex_digits_of(bytes@.take(0)));
    while i < bytes.len()
        invariant
            i <= bytes.len(),
            text@ == "0x"@ + hex_digits_of(bytes@.take(i as int)),
        decreases bytes.len() - i,
    {
        let ghost before = text@;
        let b: u8 = bytes[i];
        push_digit(&mut text, b / 16);
        push_digit(&mut text, b % 16);
        i += 1;
        proof {
            assert(bytes@.take(i as int).drop_last() =~= bytes@.take(i - 1));
            assert(text@ =~= "0x"@ + hex_digits_of(bytes@.take(i as int)));
        }
    }
    assert(bytes@.take(bytes@.len() as int) =~= bytes@);
    text
}

/// Appends a number to a text, in decimal.
pub fn push_decimal(text: &mut String, n: u64)
    ensures
        final(text)@ == old(text)@ + decimal_text(n as nat),
    decreases n,
{
    if n >= 10 {
        push_decimal(text, n / 10);
    }
    push_digit(text, (n % 10) as u8);
    assert(text@ =~= old(text)@ + decimal_text(n as nat));
}

} // verus!
