//! Messages for the library's errors, and the decimal and hexadecimal
//! text they are written with.

use vstd::prelude::*;

use super::screen::string_push;
use super::text::{char_from_u32, str_chars};
use super::Error;

verus! {

/// An uppercase hexadecimal digit.
pub open spec fn hex_char(d: int) -> char {
    if d < 10 {
        (48 + d) as char
    } else {
        (55 + d) as char
    }
}

/// A value in uppercase hexadecimal without leading zeros.
pub open spec fn hex_text(v: nat) -> Seq<char>
    decreases v,
{
    if v < 16 {
        seq![hex_char(v as int)]
    } else {
        hex_text(v / 16).push(hex_char((v % 16) as int))
    }
}

/// A decimal digit.
pub open spec fn digit_char(d: int) -> char {
    (48 + d) as char
}

/// A value in decimal without leading zeros.
pub open spec fn decimal(n: nat) -> Seq<char>
    decreases n,
{
    if n < 10 {
        seq![digit_char(n as int)]
    } else {
        decimal(n / 10).push(digit_char((n % 10) as int))
    }
}

/// `s` with zeros before it up to `width` characters.
pub open spec fn zero_padded(s: Seq<char>, width: nat) -> Seq<char> {
    if s.len() < width {
        Seq::new((width - s.len()) as nat, |i: int| '0') + s
    } else {
        s
    }
}

pub(crate) fn hex_char_exec(d: u32) -> (c: char)
    requires
        d < 16,
    ensures
        c == hex_char(d as int),
        0x30 <= (c as u32) <= 0x46,
{
    let code: u32 = if d < 10 {
        48 + d
    } else {
        55 + d
    };
    match char_from_u32(code) {
        Some(c) => c,
        None => {
            proof {
                assert(false);
            }
            '0'
        },
    }
}

pub(crate) fn push_hex(out: &mut Vec<char>, v: u32)
    ensures
        final(out)@ == old(out)@ + hex_text(v as nat),
        forall|i: int| old(out)@.len() <= i < final(out)@.len() ==> 0x30 <= (#[trigger] final(out)@[i] as u32) <= 0x46,
        forall|i: int| 0 <= i < old(out)@.len() ==> final(out)@[i] == old(out)@[i],
    decreases v,
{
    if v >= 16 {
        push_hex(out, v / 16);
    }
    let ghost middle = out@;
    out.push(hex_char_exec(v % 16));
    proof {
        if v >= 16 {
            assert(out@ =~= old(out)@ + hex_text(v as nat));
        } else {
            assert(out@ =~= old(out)@ + hex_text(v as nat));
        }
    }
}

fn digit_exec(d: usize) -> (c: char)
    requires
        d < 10,
    ensures
        c == digit_char(d as int),
{
    match char_from_u32(48 + d as u32) {
        Some(c) => c,
        None => {
            proof {
                assert(false);
            }
            '0'
        },
    }
}

pub(crate) fn push_decimal(out: &mut Vec<char>, n: usize)
    ensures
        final(out)@ == old(out)@ + decimal(n as nat),
    decreases n,
{
    if n >= 10 {
        push_decimal(out, n / 10);
    }
    out.push(digit_exec(n % 10));
    proof {
        assert(out@ =~= old(out)@ + decimal(n as nat));
    }
}

pub(crate) fn push_str(out: &mut Vec<char>, s: &str)
    ensures
        final(out)@ == old(out)@ + s@,
{
    let characters = str_chars(s);
    let mut i: usize = 0;
    while i < characters.len()
        invariant
            characters@ == s@,
            i <= characters@.len(),
            out@ == old(out)@ + characters@.subrange(0, i as int),
        decreases characters@.len() - i,
    {
        out.push(characters[i]);
        i = i + 1;
        proof {
            assert(out@ =~= old(out)@ + characters@.subrange(0, i as int));
        }
    }
    proof {
        assert(characters@.subrange(0, characters@.len() as int) =~= characters@);
    }
}

pub(crate) fn into_string(characters: &Vec<char>) -> (text: String)
    ensures
        text@ == characters@,
{
    let mut text = String::new();
    let mut i: usize = 0;
    while i < characters.len()
        invariant
            i <= characters@.len(),
            text@ == characters@.subrange(0, i as int),
        decreases characters@.len() - i,
    {
        string_push(&mut text, characters[i]);
        i = i + 1;
        proof {
            assert(text@ =~= characters@.subrange(0, i as int));
        }
    }
    proof {
        assert(characters@.subrange(0, characters@.len() as int) =~= characters@);
    }
    text
}

fn push_hex_padded(out: &mut Vec<char>, v: u32, width: usize)
    ensures
        final(out)@ == old(out)@ + zero_padded(hex_text(v as nat), width as nat),
{
    let mut digits: Vec<char> = Vec::new();
    push_hex(&mut digits, v);
    proof {
        assert(digits@ =~= hex_text(v as nat));
    }
    let mut k: usize = digits.len();
    let ghost start = out@;
    while k < width
        invariant
            digits@.len() <= k <= width || (k == digits@.len() && k >= width),
            out@ == start + Seq::new((k - digits@.len()) as nat, |i: int| '0'),
        decreases width - k,
    {
        out.push('0');
        k = k + 1;
        proof {
            assert(out@ =~= start + Seq::new((k - digits@.len()) as nat, |i: int| '0'));
        }
    }
    let mut i: usize = 0;
    let ghost padded = out@;
    while i < digits.len()
        invariant
            i <= digits@.len(),
            out@ == padded + digits@.subrange(0, i as int),
        decreases digits@.len() - i,
    {
        out.push(digits[i]);
        i = i + 1;
        proof {
            assert(out@ =~= padded + digits@.subrange(0, i as int));
        }
    }
    proof {
        assert(digits@.subrange(0, digits@.len() as int) =~= digits@);
        if digits@.len() < width {
            assert(out@ =~= start + zero_padded(hex_text(v as nat), width as nat));
        } else {
            assert(Seq::new((k - digits@.len()) as nat, |i: int| '0') =~= Seq::<char>::empty());
            assert(out@ =~= start + zero_padded(hex_text(v as nat), width as nat));
        }
    }
}

/// What an error says.
pub open spec fn error_message(error: Error) -> Seq<char> {
    match error {
        Error::EmptyCommandName => "a command name cannot be empty"@,
        Error::EmptyKeySequence => "a key sequence cannot be empty"@,
        Error::ScalarWideValue(value) => "U+"@ + zero_padded(hex_text(value as nat), 4) + " is a Unicode scalar value"@,
        Error::TextIndexOutOfBounds { index, len } => "text index "@ + decimal(index as nat) + " exceeds length "@
            + decimal(len as nat),
        Error::InvalidTextSpan { start, end, len } => "text span "@ + decimal(start as nat) + ".."@ + decimal(
            end as nat,
        ) + " is invalid for length "@ + decimal(len as nat),
        Error::InvalidScreenSize { rows, columns } => "screen size "@ + decimal(rows as nat) + "x"@ + decimal(
            columns as nat,
        ) + " has an empty dimension"@,
        Error::ScreenTooLarge { rows, columns } => "screen size "@ + decimal(rows as nat) + "x"@ + decimal(
            columns as nat,
        ) + " cannot be represented"@,
        Error::ScreenPositionOutOfBounds { row, column, rows, columns } => "screen position ("@ + decimal(
            row as nat,
        ) + ", "@ + decimal(column as nat) + ") is outside "@ + decimal(rows as nat) + "x"@ + decimal(
            columns as nat,
        ),
        Error::MarkNotSet => "the mark is not set"@,
        Error::TextLengthOverflow => "the text is too long to extend"@,
        Error::EmptySearchPattern => "a search pattern cannot be empty"@,
        Error::SearchPatternNotSet => "no search pattern has been entered"@,
        Error::StaleCompletionResponse => "the completion response no longer matches the line"@,
    }
}

impl Error {
    /// What the error says, for a person to read.
    pub fn message(&self) -> (text: String)
        ensures
            text@ == error_message(*self),
    {
        let mut out: Vec<char> = Vec::new();
        match *self {
            Error::EmptyCommandName => push_str(&mut out, "a command name cannot be empty"),
            Error::EmptyKeySequence => push_str(&mut out, "a key sequence cannot be empty"),
            Error::ScalarWideValue(value) => {
                push_str(&mut out, "U+");
                push_hex_padded(&mut out, value, 4);
                push_str(&mut out, " is a Unicode scalar value");
            },
            Error::TextIndexOutOfBounds { index, len } => {
                push_str(&mut out, "text index ");
                push_decimal(&mut out, index);
                push_str(&mut out, " exceeds length ");
                push_decimal(&mut out, len);
            },
            Error::InvalidTextSpan { start, end, len } => {
                push_str(&mut out, "text span ");
                push_decimal(&mut out, start);
                push_str(&mut out, "..");
                push_decimal(&mut out, end);
                push_str(&mut out, " is invalid for length ");
                push_decimal(&mut out, len);
            },
            Error::InvalidScreenSize { rows, columns } => {
                push_str(&mut out, "screen size ");
                push_decimal(&mut out, rows);
                push_str(&mut out, "x");
                push_decimal(&mut out, columns);
                push_str(&mut out, " has an empty dimension");
            },
            Error::ScreenTooLarge { rows, columns } => {
                push_str(&mut out, "screen size ");
                push_decimal(&mut out, rows);
                push_str(&mut out, "x");
                push_decimal(&mut out, columns);
                push_str(&mut out, " cannot be represented");
            },
            Error::ScreenPositionOutOfBounds { row, column, rows, columns } => {
                push_str(&mut out, "screen position (");
                push_decimal(&mut out, row);
                push_str(&mut out, ", ");
                push_decimal(&mut out, column);
                push_str(&mut out, ") is outside ");
                push_decimal(&mut out, rows);
                push_str(&mut out, "x");
                push_decimal(&mut out, columns);
            },
            Error::MarkNotSet => push_str(&mut out, "the mark is not set"),
            Error::TextLengthOverflow => push_str(&mut out, "the text is too long to extend"),
            Error::EmptySearchPattern => push_str(&mut out, "a search pattern cannot be empty"),
            Error::SearchPatternNotSet => push_str(&mut out, "no search pattern has been entered"),
            Error::StaleCompletionResponse => push_str(&mut out, "the completion response no longer matches the line"),
        }
        proof {
            assert(out@ =~= error_message(*self));
        }
        into_string(&out)
    }
}

} // verus!
