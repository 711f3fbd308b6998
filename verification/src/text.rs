//! Integers as text: the decimal form of an integer, and the reading of an
//! unsigned integer in a given radix.

use vstd::prelude::*;
use vstd::slice::slice_subrange;

verus! {

/// Whether two texts are the same.
pub fn same_text(a: &String, b: &str) -> (same: bool)
    ensures
        same == (a@ == b@),
{
    *a == b.to_owned()
}

/// Whether a text has no characters.
pub fn is_empty_text(text: &String) -> (empty: bool)
    ensures
        empty == (text@.len() == 0),
{
    proof {
        reveal_strlit("");
    }
    assert(text@.len() == 0 ==> text@ =~= ""@);
    same_text(text, "")
}

/// The decimal digits of `n`, most significant first, without leading zeros.
pub open spec fn decimal(n: nat) -> Seq<char>
    decreases n,
{
    if n < 10 {
        seq![digit_char(n)]
    } else {
        decimal(n / 10).push(digit_char(n % 10))
    }
}

/// The character of a decimal digit.
pub open spec fn digit_char(d: nat) -> char {
    if d == 0 {
        '0'
    } else if d == 1 {
        '1'
    } else if d == 2 {
        '2'
    } else if d == 3 {
        '3'
    } else if d == 4 {
        '4'
    } else if d == 5 {
        '5'
    } else if d == 6 {
        '6'
    } else if d == 7 {
        '7'
    } else if d == 8 {
        '8'
    } else {
        '9'
    }
}

/// The decimal form of an integer: its digits, behind a `-` where it is negative.
pub open spec fn signed_decimal(i: int) -> Seq<char> {
    if i < 0 {
        seq!['-'] + decimal((-i) as nat)
    } else {
        decimal(i as nat)
    }
}

/// The text of a decimal digit.
fn digit_text(d: u64) -> (text: &'static str)
    requires
        d < 10,
    ensures
        text@ == seq![digit_char(d as nat)],
{
    proof {
        reveal_strlit("0");
        reveal_strlit("1");
        reveal_strlit("2");
        reveal_strlit("3");
        reveal_strlit("4");
        reveal_strlit("5");
        reveal_strlit("6");
        reveal_strlit("7");
        reveal_strlit("8");
        reveal_strlit("9");
    }
    let text = match d {
        0 => "0",
        1 => "1",
        2 => "2",
        3 => "3",
        4 => "4",
        5 => "5",
        6 => "6",
        7 => "7",
        8 => "8",
        _ => "9",
    };
    assert(text@ =~= seq![digit_char(d as nat)]);
    text
}

/// The decimal form of an unsigned integer.
pub fn u64_text(n: u64) -> (text: String)
    ensures
        text@ == decimal(n as nat),
    decreases n,
{
    if n < 10 {
        digit_text(n).to_owned()
    } else {
        let mut text = u64_text(n / 10);
        text.append(digit_text(n % 10));
        assert(text@ =~= decimal((n / 10) as nat).push(digit_char((n % 10) as nat)));
        text
    }
}

/// The decimal form of a signed integer.
pub fn i64_text(i: i64) -> (text: String)
    ensures
        text@ == signed_decimal(i as int),
{
    if i < 0 {
        let magnitude: u64 = if i == i64::MIN {
            9_223_372_036_854_775_808
        } else {
            (-i) as u64
        };
        proof {
            reveal_strlit("-");
        }
        let mut text = "-".to_owned();
        assert(text@ =~= seq!['-']);
        text.append(u64_text(magnitude).as_str());
        text
    } else {
        u64_text(i as u64)
    }
}

/// The value of an ASCII digit or letter as a digit.
pub open spec fn digit_value(b: u8) -> Option<nat> {
    if 48 <= b <= 57 {
        Some((b - 48) as nat)
    } else if 97 <= b <= 122 {
        Some((b - 97 + 10) as nat)
    } else if 65 <= b <= 90 {
        Some((b - 65 + 10) as nat)
    } else {
        None
    }
}

/// The value of a run of digits in a radix; `None` if a byte is not a digit of that radix.
pub open spec fn digits_value(digits: Seq<u8>, radix: nat) -> Option<nat>
    decreases digits.len(),
{
    if digits.len() == 0 {
        Some(0)
    } else {
        match (digits_value(digits.drop_last(), radix), digit_value(digits.last())) {
            (Some(high), Some(low)) if low < radix => Some(high * radix + low),
            _ => None,
        }
    }
}

/// The unsigned integer that a text denotes: an optional `+` followed by one or more
/// digits of the radix, whose value is at most `max`.
pub open spec fn unsigned_value(text: Seq<u8>, radix: nat, max: nat) -> Option<nat> {
    let digits = if text.len() > 0 && text[0] == 43 {
        text.skip(1)
    } else {
        text
    };
    if digits.len() == 0 {
        None
    } else {
        match digits_value(digits, radix) {
            Some(value) if value <= max => Some(value),
            _ => None,
        }
    }
}

/// The value of a run of digits is at least that of each of its prefixes.
proof fn lemma_prefix_value(digits: Seq<u8>, radix: nat, n: int)
    requires
        0 <= n <= digits.len(),
        radix >= 1,
    ensures
        digits_value(digits, radix) is Some ==> {
            &&& digits_value(digits.take(n), radix) is Some
            &&& digits_value(digits.take(n), radix).unwrap() <= digits_value(
                digits,
                radix,
            ).unwrap()
        },
    decreases digits.len() - n,
{
    if n == digits.len() {
        assert(digits.take(n) =~= digits);
    } else {
        lemma_prefix_value(digits, radix, n + 1);
        assert(digits.take(n + 1).drop_last() =~= digits.take(n));
        if let Some(high) = digits_value(digits.take(n), radix) {
            assert(high <= high * radix) by (nonlinear_arith)
                requires
                    radix >= 1,
            ;
        }
    }
}

/// Reads one digit.
fn read_digit(b: u8) -> (d: Option<u64>)
    ensures
        d is Some <==> digit_value(b) is Some,
        d matches Some(d) ==> Some(d as nat) == digit_value(b) && d < 36,
{
    if 48 <= b && b <= 57 {
        Some((b - 48) as u64)
    } else if 97 <= b && b <= 122 {
        Some((b - 97 + 10) as u64)
    } else if 65 <= b && b <= 90 {
        Some((b - 65 + 10) as u64)
    } else {
        None
    }
}

/// Reads a run of digits in a radix between 2 and 36, if their value is at most `max`.
pub fn read_digits(digits: &[u8], radix: u64, max: u64) -> (value: Option<u64>)
    requires
        2 <= radix <= 36,
    ensures
        match value {
            Some(value) => digits_value(digits@, radix as nat) == Some(value as nat) && value
                <= max,
            None => digits_value(digits@, radix as nat) matches Some(value) ==> value > max,
        },
{
    let mut value: u64 = 0;
    let mut i: usize = 0;
    assert(digits@.take(0) =~= Seq::<u8>::empty());
    while i < digits.len()
        invariant
            i <= digits@.len(),
            2 <= radix <= 36,
            digits_value(digits@.take(i as int), radix as nat) == Some(value as nat),
            value <= max,
        decreases digits@.len() - i,
    {
        assert(digits@.take(i + 1).drop_last() =~= digits@.take(i as int));
        assert(digits@.take(i + 1).last() == digits@[i as int]);
        proof {
            lemma_prefix_value(digits@, radix as nat, i + 1);
        }
        match read_digit(digits[i]) {
            Some(d) if d < radix => {
                assert(
                    (value as u128) * (radix as u128) <= 0xffff_ffff_ffff_ffff * 36
                ) by (nonlinear_arith)
                    requires
                        value <= 0xffff_ffff_ffff_ffff,
                        radix <= 36,
                ;
                let next: u128 = (value as u128) * (radix as u128) + (d as u128);
                if next > max as u128 {
                    return None;
                }
                value = next as u64;
            },
            _ => {
                return None;
            },
        }
        i = i + 1;
    }
    assert(digits@.take(i as int) =~= digits@);
    Some(value)
}

/// Reads an unsigned integer of at most `max`, in a radix between 2 and 36.
pub fn read_unsigned(text: &[u8], radix: u64, max: u64) -> (value: Option<u64>)
    requires
        2 <= radix <= 36,
    ensures
        match value {
            Some(value) => unsigned_value(text@, radix as nat, max as nat) == Some(value as nat),
            None => unsigned_value(text@, radix as nat, max as nat) is None,
        },
{
    let start: usize = if text.len() > 0 && text[0] == 43 {
        1
    } else {
        0
    };
    if start == text.len() {
        return None;
    }
    let digits = slice_subrange(text, start, text.len());
    assert(digits@ =~= text@.skip(start as int));
    assert(start == 0 ==> digits@ =~= text@);
    read_digits(digits, radix, max)
}

/// What `format!` makes of a text with `{:?}`.
pub uninterp spec fn debug_text(text: Seq<char>) -> Seq<char>;

/// Calls the `Debug` implementation of `str`, through `format!`.
///
/// Claimed: the quoted and escaped form of a text is a function of the text.
#[verifier::external_body]
pub(crate) fn quote(text: &str) -> (quoted: String)
    ensures
        quoted@ == debug_text(text@),
{
    format!("{:?}", text)
}

} // verus!
