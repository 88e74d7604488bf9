//! Numbers and bytes read back from their text.
use vstd::prelude::*;

use crate::outside::{account_of_text, u256_of_text};
use crate::text::{
    decimal_text, digit_value, hex_char, hex_digits_of, hex_text, hex_u64_of, number_of,
    without_hex_prefixes,
};

verus! {

/// The value of a hex digit of either case; negative for any other character.
pub open spec fn hex_digit(c: char) -> int {
    if '0' <= c <= '9' {
        c as int - '0' as int
    } else if 'a' <= c <= 'f' {
        c as int - 'a' as int + 10
    } else if 'A' <= c <= 'F' {
        c as int - 'A' as int + 10
    } else {
        -1
    }
}

/// Whether all characters are hex digits.
pub open spec fn is_hex(digits: Seq<char>) -> bool {
    forall|i: int| 0 <= i < digits.len() ==> hex_digit(#[trigger] digits[i]) >= 0
}

/// The number that digits write in base 16.
pub open spec fn hex_number(digits: Seq<char>) -> int
    decreases digits.len(),
{
    if digits.len() == 0 {
        0
    } else {
        16 * hex_number(digits.drop_last()) + hex_digit(digits.last())
    }
}

proof fn lemma_hex_number(digits: Seq<char>)
    ensures
        is_hex(digits) ==> number_of(digits, 16) == Some(hex_number(digits)),
        !is_hex(digits) ==> number_of(digits, 16) is None,
    decreases digits.len(),
{
    if digits.len() > 0 {
        let front = digits.drop_last();
        lemma_hex_number(front);
        assert(forall|i: int| 0 <= i < front.len() ==> (#[trigger] front[i]) == digits[i]);
        let c = digits[digits.len() - 1];
        assert(digits.last() == c);
        assert(hex_digit(c) >= 0 <==> digit_value(c) is Some && digit_value(c)->0 < 16);
        if is_hex(digits) {
            assert(is_hex(front));
            assert(hex_digit(c) >= 0);
        } else if is_hex(front) {
            assert(hex_digit(c) < 0) by {
                let i = choose|i: int| 0 <= i < digits.len() && hex_digit(#[trigger] digits[i]) < 0;
                if i < front.len() {
                    assert(hex_digit(front[i]) >= 0);
                }
            }
        }
    }
}

/// Reading a number in base 16: every `0x` before it is skipped, then one `+`; what is left has to
/// be hex digits, at least one, whose number fits into 64 bits, and is that number.
pub proof fn a_hex_number_is_read_from_its_digits(s: Seq<char>)
    ensures
        s.len() >= 2 && s[0] == '0' && s[1] == 'x' ==> hex_u64_of(s) == hex_u64_of(s.skip(2)),
        !(s.len() >= 2 && s[0] == '0' && s[1] == 'x') ==> {
            let digits = if s.len() > 0 && s[0] == '+' {
                s.skip(1)
            } else {
                s
            };
            &&& digits.len() > 0 && is_hex(digits) && hex_number(digits) <= u64::MAX ==> {
                &&& hex_u64_of(s) is Some
                &&& hex_u64_of(s)->0 == hex_number(digits)
            }
            &&& digits.len() == 0 || !is_hex(digits) || hex_number(digits) > u64::MAX
                ==> hex_u64_of(s) is None
        },
{
    let digits = if s.len() > 0 && s[0] == '+' {
        s.skip(1)
    } else {
        s
    };
    lemma_hex_number(digits);
    if is_hex(digits) {
        lemma_hex_number_nonnegative(digits);
    }
    assert(!(s.len() >= 2 && s[0] == '0' && s[1] == 'x') ==> without_hex_prefixes(s) == s);
    assert(s.len() >= 2 && s[0] == '0' && s[1] == 'x' ==> without_hex_prefixes(s)
        == without_hex_prefixes(s.skip(2)));
}

proof fn lemma_hex_number_nonnegative(digits: Seq<char>)
    requires
        is_hex(digits),
    ensures
        hex_number(digits) >= 0,
    decreases digits.len(),
{
    if digits.len() > 0 {
        let front = digits.drop_last();
        assert(forall|i: int| 0 <= i < front.len() ==> (#[trigger] front[i]) == digits[i]);
        lemma_hex_number_nonnegative(front);
        assert(hex_digit(digits[digits.len() - 1]) >= 0);
    }
}

proof fn lemma_hex_char(d: int)
    requires
        0 <= d < 16,
    ensures
        hex_digit(hex_char(d)) == d,
        !('A' <= hex_char(d) <= 'F'),
        d < 10 ==> '0' <= hex_char(d) <= '9',
        d == 0 <==> hex_char(d) == '0',
{
    reveal_strlit("0123456789abcdef");
}

proof fn lemma_hex_digits(bytes: Seq<u8>)
    ensures
        hex_digits_of(bytes).len() == 2 * bytes.len(),
        forall|i: int|
            0 <= i < bytes.len() ==> #[trigger] bytes[i] == 16 * hex_digit(
                hex_digits_of(bytes)[2 * i],
            ) + hex_digit(hex_digits_of(bytes)[2 * i + 1]),
        forall|i: int|
            0 <= i < hex_digits_of(bytes).len() ==> {
                let c = #[trigger] hex_digits_of(bytes)[i];
                hex_digit(c) >= 0 && !('A' <= c <= 'F')
            },
    decreases bytes.len(),
{
    if bytes.len() > 0 {
        let front = bytes.drop_last();
        let last = bytes.last() as int;
        lemma_hex_digits(front);
        lemma_hex_char(last / 16);
        lemma_hex_char(last % 16);
        let all = hex_digits_of(bytes);
        let before = hex_digits_of(front);
        assert(all == before + seq![hex_char(last / 16), hex_char(last % 16)]);
        assert forall|i: int| 0 <= i < bytes.len() implies #[trigger] bytes[i] == 16 * hex_digit(
            all[2 * i],
        ) + hex_digit(all[2 * i + 1]) by {
            if i < front.len() {
                assert(front[i] == bytes[i]);
                assert(all[2 * i] == before[2 * i]);
                assert(all[2 * i + 1] == before[2 * i + 1]);
            }
        }
        assert forall|i: int| 0 <= i < all.len() implies {
            let c = #[trigger] all[i];
            hex_digit(c) >= 0 && !('A' <= c <= 'F')
        } by {
            if i < before.len() {
                assert(all[i] == before[i]);
            }
        }
    }
}

/// Bytes as text are `0x` and, for each byte, two hex digits in lower case that write it.
pub proof fn bytes_can_be_read_from_their_text(bytes: Seq<u8>)
    ensures
        hex_text(bytes).len() == 2 + 2 * bytes.len(),
        hex_text(bytes)[0] == '0',
        hex_text(bytes)[1] == 'x',
        forall|i: int|
            0 <= i < bytes.len() ==> #[trigger] bytes[i] == 16 * hex_digit(
                hex_text(bytes)[2 + 2 * i],
            ) + hex_digit(hex_text(bytes)[3 + 2 * i]),
        forall|i: int|
            2 <= i < hex_text(bytes).len() ==> {
                let c = #[trigger] hex_text(bytes)[i];
                hex_digit(c) >= 0 && !('A' <= c <= 'F')
            },
{
    reveal_strlit("0x");
    lemma_hex_digits(bytes);
    let text = hex_text(bytes);
    let digits = hex_digits_of(bytes);
    assert(text == "0x"@ + digits);
    assert forall|i: int| 0 <= i < bytes.len() implies #[trigger] bytes[i] == 16 * hex_digit(
        text[2 + 2 * i],
    ) + hex_digit(text[3 + 2 * i]) by {
        assert(text[2 + 2 * i] == digits[2 * i]);
        assert(text[3 + 2 * i] == digits[2 * i + 1]);
    }
    assert forall|i: int| 2 <= i < text.len() implies {
        let c = #[trigger] text[i];
        hex_digit(c) >= 0 && !('A' <= c <= 'F')
    } by {
        assert(text[i] == digits[i - 2]);
    }
}

/// An account is read back from its text.
pub proof fn an_account_can_be_read_from_its_text(bytes: Seq<u8>)
    requires
        bytes.len() == 20,
    ensures
        account_of_text(hex_text(bytes)) == Some(bytes),
{
    let text = hex_text(bytes);
    bytes_can_be_read_from_their_text(bytes);
    let digits = text.skip(2);
    assert forall|i: int| 0 <= i < digits.len() implies hex_digit(#[trigger] digits[i]) >= 0 by {
        assert(digits[i] == text[2 + i]);
    }
    lemma_hex_number(digits);
    let read = account_of_text(text)->0;
    assert forall|i: int| 0 <= i < 20 implies read[i] == bytes[i] by {
        assert(digits[2 * i] == text[2 + 2 * i]);
        assert(digits[2 * i + 1] == text[3 + 2 * i]);
        let high = digits[2 * i];
        let low = digits[2 * i + 1];
        assert(digit_value(high)->0 == hex_digit(high));
        assert(digit_value(low)->0 == hex_digit(low));
    }
    assert(read =~= bytes);
}

/// The number that decimal digits write.
pub open spec fn decimal_number(digits: Seq<char>) -> int
    decreases digits.len(),
{
    if digits.len() == 0 {
        0
    } else {
        10 * decimal_number(digits.drop_last()) + (digits.last() as int - '0' as int)
    }
}

/// A number as text is decimal digits that write it, without leading zeros.
pub proof fn a_number_can_be_read_from_its_text(n: nat)
    ensures
        decimal_text(n).len() > 0,
        forall|i: int| 0 <= i < decimal_text(n).len() ==> '0' <= #[trigger] decimal_text(n)[i]
            <= '9',
        decimal_number(decimal_text(n)) == n,
        n == 0 ==> decimal_text(n).len() == 1,
        n > 0 ==> decimal_text(n)[0] != '0',
    decreases n,
{
    let text = decimal_text(n);
    lemma_hex_char((n % 10) as int);
    if n < 10 {
        lemma_hex_char(n as int);
        assert(text == seq![hex_char(n as int)]);
        assert(text.drop_last() =~= Seq::<char>::empty());
        reveal_with_fuel(decimal_number, 2);
    } else {
        a_number_can_be_read_from_its_text(n / 10);
        let front = decimal_text(n / 10);
        let last = hex_char((n % 10) as int);
        assert(text == front.push(last));
        assert(text.drop_last() =~= front);
        assert forall|i: int| 0 <= i < text.len() implies '0' <= #[trigger] text[i] <= '9' by {
            if i < front.len() {
                assert(text[i] == front[i]);
            }
        }
        assert(text[0] == front[0]);
    }
}

proof fn lemma_decimal_number(digits: Seq<char>)
    requires
        forall|i: int| 0 <= i < digits.len() ==> '0' <= #[trigger] digits[i] <= '9',
    ensures
        number_of(digits, 10) == Some(decimal_number(digits)),
        digits.filter(|c: char| c != '_') == digits,
    decreases digits.len(),
{
    reveal(Seq::filter);
    if digits.len() > 0 {
        let front = digits.drop_last();
        assert(forall|i: int| 0 <= i < front.len() ==> (#[trigger] front[i]) == digits[i]);
        lemma_decimal_number(front);
        assert('0' <= digits[digits.len() - 1] <= '9');
        assert(digits =~= front.push(digits.last()));
    }
}

/// An integer of 256 bits is read back from its decimal text.
pub proof fn an_integer_can_be_read_from_its_text(n: nat)
    requires
        n < vstd::arithmetic::power2::pow2(256),
    ensures
        u256_of_text(decimal_text(n)) == Some(n as int),
{
    let text = decimal_text(n);
    a_number_can_be_read_from_its_text(n);
    lemma_decimal_number(text);
    if text.len() >= 2 {
        assert('0' <= text[1] <= '9');
    }
}

} // verus!
