//! Bytes written out for a reader: the text that an error shows for the
//! bytes it could not read.

use crate::error::StringErr;
use vstd::prelude::*;
use vstd::string::*;

verus! {

/// The character for one decimal digit.
pub open spec fn digit(n: int) -> char {
    if n == 0 {
        '0'
    } else if n == 1 {
        '1'
    } else if n == 2 {
        '2'
    } else if n == 3 {
        '3'
    } else if n == 4 {
        '4'
    } else if n == 5 {
        '5'
    } else if n == 6 {
        '6'
    } else if n == 7 {
        '7'
    } else if n == 8 {
        '8'
    } else {
        '9'
    }
}

/// A byte as a decimal number, without leading zeros.
pub open spec fn decimal(b: u8) -> Seq<char> {
    if b >= 100 {
        seq![digit(b as int / 100), digit((b as int / 10) % 10), digit(b as int % 10)]
    } else if b >= 10 {
        seq![digit(b as int / 10), digit(b as int % 10)]
    } else {
        seq![digit(b as int)]
    }
}

/// The bytes as decimal numbers with a comma and a space between them.
pub open spec fn listed(bytes: Seq<u8>) -> Seq<char>
    decreases bytes.len(),
{
    if bytes.len() == 0 {
        Seq::empty()
    } else if bytes.len() == 1 {
        decimal(bytes[0])
    } else {
        listed(bytes.drop_last()) + seq![',', ' '] + decimal(bytes.last())
    }
}

/// The text that stands for a byte string: its bytes as decimal numbers,
/// listed in square brackets, as in `[65, 76, 76]`.
pub open spec fn debug_text(bytes: Seq<u8>) -> Seq<char> {
    seq!['['] + listed(bytes) + seq![']']
}

/// The text of one decimal digit.
fn digit_text(n: u8) -> (text: &'static str)
    requires
        n < 10,
    ensures
        text@ == seq![digit(n as int)],
{
    proof {
        reveal_strlit("0");
        reveal_strlit("1");
        reveal_strlit("2");
        reveal_strlit("3");
        reveal_strlit("4");
        reveal_strlit("5");
        reveal_strlit("6");
        reveal_strlit("7");
        reveal_strlit("8");
        reveal_strlit("9");
    }
    let text = if n == 0 {
        "0"
    } else if n == 1 {
        "1"
    } else if n == 2 {
        "2"
    } else if n == 3 {
        "3"
    } else if n == 4 {
        "4"
    } else if n == 5 {
        "5"
    } else if n == 6 {
        "6"
    } else if n == 7 {
        "7"
    } else if n == 8 {
        "8"
    } else {
        "9"
    };
    assert(text@ =~= seq![digit(n as int)]);
    text
}

/// Appends a byte as a decimal number.
fn push_decimal(text: &mut String, b: u8)
    ensures
        final(text)@ == old(text)@ + decimal(b),
{
    if b >= 100 {
        text.append(digit_text(b / 100));
    }
    if b >= 10 {
        text.append(digit_text((b / 10) % 10));
    }
    text.append(digit_text(b % 10));
    assert(text@ =~= old(text)@ + decimal(b));
}

/// The text that stands for a byte string.
pub fn debug_bytes(bytes: &[u8]) -> (text: String)
    ensures
        text@ == debug_text(bytes@),
{
    proof {
        reveal_strlit("[");
        reveal_strlit("]");
        reveal_strlit(", ");
    }
    let mut text = String::from_str("[");
    let mut i: usize = 0;
    assert(text@ =~= seq!['['] + listed(bytes@.subrange(0, 0)));
    while i < bytes.len()
        invariant
            i <= bytes@.len(),
            text@ == seq!['['] + listed(bytes@.subrange(0, i as int)),
            ", "@ == seq![',', ' '],
        decreases bytes.len() - i,
    {
        let ghost done = bytes@.subrange(0, i as int);
        let ghost more = bytes@.subrange(0, i as int + 1);
        if i > 0 {
            text.append(", ");
        }
        push_decimal(&mut text, bytes[i]);
        proof {
            assert(more.drop_last() =~= done);
            assert(more.last() == bytes@[i as int]);
            if i == 0 {
                assert(listed(done) =~= Seq::<char>::empty());
                assert(listed(more) == decimal(bytes@[0]));
                assert(text@ =~= seq!['['] + listed(more));
            } else {
                assert(text@ =~= seq!['['] + listed(more));
            }
        }
        i = i + 1;
    }
    assert(bytes@.subrange(0, i as int) =~= bytes@);
    text.append("]");
    assert(text@ =~= debug_text(bytes@));
    text
}

/// `text` with something before it and something after it.
pub open spec fn around(before: Seq<char>, text: Seq<char>, after: Seq<char>) -> Seq<char> {
    before + text + after
}

/// The message shows the bytes: the text that stands for them is part of
/// it.
pub open spec fn shows(message: Seq<char>, bytes: Seq<u8>) -> bool {
    exists|before: Seq<char>, after: Seq<char>|
        message == #[trigger] around(before, debug_text(bytes), after)
}

/// The error for bytes that stand for no value: what was wrong with them,
/// and the bytes themselves.
pub fn corrupted(what: &str, bytes: &[u8]) -> (e: StringErr)
    ensures
        e.0@ == what@ + ": "@ + debug_text(bytes@),
        shows(e.0@, bytes@),
{
    let message = String::from_str(what).concat(": ").concat(debug_bytes(bytes).as_str());
    assert(message@ =~= around(what@ + ": "@, debug_text(bytes@), Seq::empty()));
    StringErr(message)
}

/// A number written in decimal, without leading zeros.
pub open spec fn decimal_text(n: nat) -> Seq<char>
    decreases n,
{
    if n < 10 {
        seq![digit(n as int)]
    } else {
        decimal_text(n / 10) + seq![digit((n % 10) as int)]
    }
}

/// A number written in decimal.
pub fn decimal_of(n: usize) -> (text: String)
    ensures
        text@ == decimal_text(n as nat),
{
    // the digits are found last one first
    let mut digits: Vec<u8> = Vec::new();
    let mut rest: usize = n;
    while rest >= 10
        invariant
            forall|i: int| 0 <= i < digits@.len() ==> (#[trigger] digits@[i]) < 10,
            decimal_text(n as nat) == decimal_text(rest as nat) + Seq::new(
                digits@.len(),
                |i: int| digit(digits@[digits@.len() - 1 - i] as int),
            ),
        decreases rest,
    {
        let ghost before = digits@;
        let ghost tail = Seq::new(before.len(), |i: int| digit(before[before.len() - 1 - i] as int));
        digits.push((rest % 10) as u8);
        proof {
            let now = Seq::new(digits@.len(), |i: int| digit(digits@[digits@.len() - 1 - i] as int));
            assert(now =~= seq![digit((rest % 10) as int)] + tail);
            assert(decimal_text(rest as nat) == decimal_text((rest / 10) as nat) + seq![
                digit((rest % 10) as int),
            ]);
            assert(decimal_text((rest / 10) as nat) + now =~= decimal_text(rest as nat) + tail);
        }
        rest = rest / 10;
    }
    let mut text = String::from_str(digit_text(rest as u8));
    let mut left: usize = digits.len();
    let ghost all = Seq::new(digits@.len(), |i: int| digit(digits@[digits@.len() - 1 - i] as int));
    assert(text@ =~= decimal_text(rest as nat) + all.subrange(0, 0));
    while left > 0
        invariant
            left <= digits@.len(),
            forall|i: int| 0 <= i < digits@.len() ==> (#[trigger] digits@[i]) < 10,
            all == Seq::new(digits@.len(), |i: int| digit(digits@[digits@.len() - 1 - i] as int)),
            text@ == decimal_text(rest as nat) + all.subrange(0, digits@.len() - left),
        decreases left,
    {
        left = left - 1;
        text.append(digit_text(digits[left]));
        assert(text@ =~= decimal_text(rest as nat) + all.subrange(0, digits@.len() - left));
    }
    assert(all.subrange(0, digits@.len() as int) =~= all);
    text
}

/// The character for one hexadecimal digit, in capitals.
pub open spec fn hex_digit(n: int) -> char {
    if n < 10 {
        digit(n)
    } else if n == 10 {
        'A'
    } else if n == 11 {
        'B'
    } else if n == 12 {
        'C'
    } else if n == 13 {
        'D'
    } else if n == 14 {
        'E'
    } else {
        'F'
    }
}

/// The bytes in hexadecimal, two digits for each.
pub open spec fn hex_text(bytes: Seq<u8>) -> Seq<char>
    decreases bytes.len(),
{
    if bytes.len() == 0 {
        Seq::empty()
    } else {
        hex_text(bytes.drop_last()) + seq![
            hex_digit(bytes.last() as int / 16),
            hex_digit(bytes.last() as int % 16),
        ]
    }
}

/// The text of one hexadecimal digit.
fn hex_digit_text(n: u8) -> (text: &'static str)
    requires
        n < 16,
    ensures
        text@ == seq![hex_digit(n as int)],
{
    proof {
        reveal_strlit("A");
        reveal_strlit("B");
        reveal_strlit("C");
        reveal_strlit("D");
        reveal_strlit("E");
        reveal_strlit("F");
    }
    let text = if n < 10 {
        digit_text(n)
    } else if n == 10 {
        "A"
    } else if n == 11 {
        "B"
    } else if n == 12 {
        "C"
    } else if n == 13 {
        "D"
    } else if n == 14 {
        "E"
    } else {
        "F"
    };
    assert(text@ =~= seq![hex_digit(n as int)]);
    text
}

/// The bytes in hexadecimal.
pub fn hex_of(bytes: &[u8]) -> (text: String)
    ensures
        text@ == hex_text(bytes@),
{
    let mut text = String::new();
    let mut i: usize = 0;
    assert(hex_text(bytes@.subrange(0, 0)) =~= Seq::<char>::empty());
    while i < bytes.len()
        invariant
            i <= bytes@.len(),
            text@ == hex_text(bytes@.subrange(0, i as int)),
        decreases bytes.len() - i,
    {
        let b = bytes[i];
        text.append(hex_digit_text(b / 16));
        text.append(hex_digit_text(b % 16));
        proof {
            let more = bytes@.subrange(0, i as int + 1);
            assert(more.drop_last() =~= bytes@.subrange(0, i as int));
            assert(more.last() == b);
            assert(text@ =~= hex_text(more));
        }
        i = i + 1;
    }
    assert(bytes@.subrange(0, i as int) =~= bytes@);
    text
}

} // verus!
