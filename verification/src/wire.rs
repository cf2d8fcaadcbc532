//! Player identifiers on the wire.
//!
//! An identifier travels as a string of decimal digits, so that a client
//! never has to hold it in a number type of its own. Reading accepts what
//! the writing side produces, and more: leading zeros and one leading `+`.

use crate::player::PlayerId;
use vstd::prelude::*;
use vstd::string::*;

verus! {

/// Whether `c` is one of the digits `0` to `9`.
pub open spec fn is_digit(c: char) -> bool {
    '0' <= c <= '9'
}

/// The number that the digit `c` stands for.
pub open spec fn digit_value(c: char) -> nat {
    (c as int - '0' as int) as nat
}

/// The digit that stands for `d`, a number below ten.
pub open spec fn digit_char(d: nat) -> char {
    (d + '0' as nat) as char
}

/// Whether `text` is made of digits, and of one at least.
pub open spec fn all_digits(text: Seq<char>) -> bool {
    text.len() > 0 && forall|i: int| 0 <= i < text.len() ==> is_digit(#[trigger] text[i])
}

/// The number that the digits `text` stand for in base ten.
pub open spec fn decimal_value(text: Seq<char>) -> nat
    decreases text.len(),
{
    if text.len() == 0 {
        0
    } else {
        decimal_value(text.drop_last()) * 10 + digit_value(text.last())
    }
}

/// The digits of `n` in base ten, without leading zeros.
pub open spec fn decimal(n: nat) -> Seq<char>
    decreases n,
{
    if n < 10 {
        seq![digit_char(n)]
    } else {
        decimal(n / 10).push(digit_char(n % 10))
    }
}

/// `text` without its leading `+`, if it has one.
pub open spec fn unsigned_part(text: Seq<char>) -> Seq<char> {
    if text.len() > 0 && text[0] == '+' {
        text.drop_first()
    } else {
        text
    }
}

/// The identifier that `text` stands for: `text` is an optional `+` and then
/// one or more digits, which give a number that fits in 64 bits. Any other
/// text stands for no identifier.
pub open spec fn parse_id(text: Seq<char>) -> Option<PlayerId> {
    let digits = unsigned_part(text);
    if all_digits(digits) && decimal_value(digits) <= u64::MAX {
        Some(PlayerId(decimal_value(digits) as u64))
    } else {
        None
    }
}

/// The digits written for a number are digits, do not begin with `+`, and
/// stand for that number.
pub proof fn lemma_decimal_is_read_back(n: nat)
    ensures
        all_digits(decimal(n)),
        decimal(n)[0] != '+',
        decimal_value(decimal(n)) == n,
    decreases n,
{
    if n < 10 {
        let text = decimal(n);
        assert(text.drop_last() =~= Seq::<char>::empty());
        assert(decimal_value(text.drop_last()) == 0);
    } else {
        lemma_decimal_is_read_back(n / 10);
        let front = decimal(n / 10);
        let text = decimal(n);
        assert(text.drop_last() =~= front);
        assert(text.last() == digit_char(n % 10));
        assert(text[0] == front[0]);
    }
}

/// Reading what was written for an identifier gives the identifier back.
pub proof fn lemma_wire_round_trip(id: PlayerId)
    ensures
        parse_id(decimal(id.0 as nat)) == Some(id),
{
    lemma_decimal_is_read_back(id.0 as nat);
}

/// With more digits behind it, a number does not get smaller.
proof fn lemma_prefix_value(text: Seq<char>, k: int)
    requires
        0 <= k <= text.len(),
    ensures
        decimal_value(text.take(k)) <= decimal_value(text),
    decreases text.len() - k,
{
    if k < text.len() {
        lemma_prefix_value(text, k + 1);
        assert(text.take(k + 1).drop_last() =~= text.take(k));
    } else {
        assert(text.take(k) =~= text);
    }
}

/// The text of the digit `d`.
fn digit_text(d: u8) -> (text: &'static str)
    requires
        d < 10,
    ensures
        text@ == seq![digit_char(d as nat)],
{
    proof {
        reveal_strlit("0");
        reveal_strlit("1");
        reveal_strlit("2");
        reveal_strlit("3");
        reveal_strlit("4");
        reveal_strlit("5");
        reveal_strlit("6");
        reveal_strlit("7");
        reveal_strlit("8");
        reveal_strlit("9");
    }
    let text = match d {
        0 => "0",
        1 => "1",
        2 => "2",
        3 => "3",
        4 => "4",
        5 => "5",
        6 => "6",
        7 => "7",
        8 => "8",
        _ => "9",
    };
    assert(text@ =~= seq![digit_char(d as nat)]);
    text
}

/// Writes the digits of `n` behind `text`.
fn push_decimal(n: u64, text: &mut String)
    ensures
        final(text)@ == old(text)@ + decimal(n as nat),
    decreases n,
{
    if n >= 10 {
        push_decimal(n / 10, text);
    }
    text.append(digit_text((n % 10) as u8));
    proof {
        if n >= 10 {
            assert(text@ =~= old(text)@ + decimal(n as nat));
        }
    }
}

impl PlayerId {
    /// The identifier as it travels on the wire: its number in decimal
    /// digits, without leading zeros.
    pub fn to_wire(&self) -> (text: String)
        ensures
            text@ == decimal(self.0 as nat),
            parse_id(text@) == Some(*self),
    {
        let mut text = String::new();
        push_decimal(self.0, &mut text);
        proof {
            assert(text@ =~= decimal(self.0 as nat));
            lemma_wire_round_trip(*self);
        }
        text
    }

    /// Reads an identifier from its form on the wire.
    ///
    /// Returns `None` unless `text` is an optional `+` and then one or more
    /// decimal digits that give a number that fits in 64 bits.
    pub fn from_wire(text: &str) -> (id: Option<PlayerId>)
        ensures
            id == parse_id(text@),
    {
        if !text.is_ascii() {
            proof {
                let i = choose|i: int|
                    0 <= i < text@.len() && !('\0' <= (#[trigger] text@[i]) <= '\u{7f}');
                let digits = unsigned_part(text@);
                if digits.len() == text@.len() {
                    assert(!is_digit(digits[i]));
                } else {
                    assert(i > 0);
                    assert(!is_digit(digits[i - 1]));
                }
            }
            return None;
        }
        let len = text.unicode_len();
        let start: usize = if len > 0 && text.get_ascii(0) == 43u8 {
            1
        } else {
            0
        };
        let ghost digits = unsigned_part(text@);
        proof {
            assert(digits =~= text@.skip(start as int));
        }
        if start == len {
            return None;
        }
        let mut value: u64 = 0;
        let mut i: usize = start;
        proof {
            assert(digits.take(0) =~= Seq::<char>::empty());
        }
        while i < len
            invariant
                start <= i <= len,
                len == text@.len(),
                text.is_ascii(),
                digits == text@.skip(start as int),
                digits == unsigned_part(text@),
                forall|k: int| 0 <= k < i - start ==> is_digit(#[trigger] digits[k]),
                value == decimal_value(digits.take(i - start)),
            decreases len - i,
        {
            let byte = text.get_ascii(i);
            proof {
                assert(digits[i - start] == text@[i as int]);
                assert(digits.take(i - start + 1).drop_last() =~= digits.take(i - start));
                lemma_prefix_value(digits, i - start + 1);
            }
            if byte < 48u8 || byte > 57u8 {
                assert(!is_digit(digits[i - start]));
                return None;
            }
            let digit = (byte - 48u8) as u64;
            proof {
                assert(digits.take(i - start + 1).last() == digits[i - start]);
                assert(decimal_value(digits.take(i - start + 1)) == value * 10 + digit);
            }
            if value > (u64::MAX - digit) / 10 {
                return None;
            }
            value = value * 10 + digit;
            i = i + 1;
        }
        proof {
            assert(digits.take(i - start) =~= digits);
        }
        Some(PlayerId(value))
    }
}

} // verus!
