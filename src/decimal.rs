use vstd::prelude::*;

verus! {

/// `c` is one of the ASCII digits `0` to `9`.
pub open spec fn is_digit(c: char) -> bool {
    '0' <= c && c <= '9'
}

/// The value of the digit `c`.
pub open spec fn digit_value(c: char) -> int {
    c as int - '0' as int
}

/// The digit whose value is `d`, for `d` below ten.
pub open spec fn digit_char(d: nat) -> char {
    (d + '0' as nat) as char
}

/// Every character of `s` is a digit.
pub open spec fn all_digits(s: Seq<char>) -> bool {
    forall|i: int| 0 <= i < s.len() ==> is_digit(#[trigger] s[i])
}

/// The number that the digits `s` write in base ten, most significant first
/// (zero for no digits).
pub open spec fn decimal_value(s: Seq<char>) -> int
    decreases s.len(),
{
    if s.len() == 0 {
        0
    } else {
        decimal_value(s.drop_last()) * 10 + digit_value(s.last())
    }
}

/// `s` is the decimal form of a 16-bit unsigned integer: one or more digits,
/// leading zeros allowed, of value at most 65535.
pub open spec fn is_u16_text(s: Seq<char>) -> bool {
    s.len() > 0 && all_digits(s) && decimal_value(s) <= u16::MAX
}

/// The shortest decimal form of `n`: no sign and no leading zero, but for
/// zero itself, which is `0`.
pub open spec fn decimal_text(n: nat) -> Seq<char>
    decreases n,
{
    if n < 10 {
        seq![digit_char(n)]
    } else {
        decimal_text(n / 10).push(digit_char(n % 10))
    }
}

/// Relies on the standard library's `Display` for integers, through
/// `ToString::to_string`: it writes an unsigned integer in base ten, without
/// sign or leading zeros.
#[verifier::external_body]
pub(crate) fn u16_to_decimal(n: u16) -> (r: String)
    ensures
        r@ == decimal_text(n as nat),
{
    n.to_string()
}

/// Reads `digits` as the decimal form of a 16-bit unsigned integer; `None`
/// when it is empty, holds a character other than a digit, or is above 65535.
pub fn parse_u16(digits: &Vec<char>) -> (r: Option<u16>)
    ensures
        r == (if is_u16_text(digits@) {
            Some(decimal_value(digits@) as u16)
        } else {
            None::<u16>
        }),
{
    if digits.len() == 0 {
        return None;
    }
    let mut value: u32 = 0;
    let mut i: usize = 0;
    while i < digits.len()
        invariant
            0 <= i <= digits.len(),
            all_digits(digits@.take(i as int)),
            value == decimal_value(digits@.take(i as int)),
            value <= u16::MAX,
        decreases digits.len() - i,
    {
        let c = digits[i];
        if !('0' <= c && c <= '9') {
            return None;
        }
        proof {
            assert(digits@.take(i + 1).drop_last() =~= digits@.take(i as int));
        }
        value = value * 10 + (c as u32 - '0' as u32);
        assert(all_digits(digits@.take(i + 1)));
        if value > 0xFFFF {
            proof {
                if all_digits(digits@) {
                    lemma_decimal_value_of_prefix(digits@, i + 1);
                }
            }
            return None;
        }
        i = i + 1;
    }
    proof {
        assert(digits@.take(i as int) =~= digits@);
    }
    Some(value as u16)
}

/// A digit string is worth at least as much as each of its prefixes, and no
/// digit string is negative.
proof fn lemma_decimal_value_of_prefix(s: Seq<char>, k: int)
    requires
        all_digits(s),
        0 <= k <= s.len(),
    ensures
        0 <= decimal_value(s.take(k)) <= decimal_value(s),
    decreases s.len(),
{
    if k == s.len() {
        assert(s.take(k) =~= s);
        if s.len() > 0 {
            lemma_decimal_value_of_prefix(s.drop_last(), k - 1);
            assert(s.drop_last().take(k - 1) =~= s.drop_last());
        }
    } else {
        lemma_decimal_value_of_prefix(s.drop_last(), k);
        assert(s.drop_last().take(k) =~= s.take(k));
    }
}

/// The shortest decimal form of `n` is a digit string whose value is `n`.
pub proof fn lemma_decimal_text_value(n: nat)
    ensures
        decimal_text(n).len() > 0,
        all_digits(decimal_text(n)),
        decimal_value(decimal_text(n)) == n,
    decreases n,
{
    if n < 10 {
        let t = decimal_text(n);
        assert(digit_value(digit_char(n)) == n);
        assert(decimal_value(t.drop_last()) == 0);
    } else {
        lemma_decimal_text_value(n / 10);
        let t = decimal_text(n);
        assert(t.drop_last() =~= decimal_text(n / 10));
        assert(digit_value(digit_char(n % 10)) == n % 10);
    }
}

} // verus!
