//! Conversion between wide and multibyte strings under a character set, and
//! the visual forms of characters that cannot be shown as themselves.
//!
//! The character set is passed to every query explicitly. Two are modelled:
//! `Ascii`, the C/POSIX locale, and `Utf8`. The wide side is `u32`, not
//! `char`: surrogates, the screen filler value `MB_FILL_CHAR` and values
//! above U+10FFFF all reach these functions.

use vstd::prelude::*;

use crate::domain::text::{char_from_u32, is_scalar_value};
use crate::unicode::{char_is_alphanumeric, char_is_whitespace, is_alphanumeric, is_whitespace};

verus! {

/// The character sets of `LC_CTYPE` that are modelled.
#[derive(Clone, Copy, PartialEq, Eq, Debug, Structural)]
pub enum Charset {
    /// The C/POSIX locale: one byte, ASCII only.
    Ascii,
    /// UTF-8.
    Utf8,
}

/// The screen filler for the later columns of a multi-column character.
pub const MB_FILL_CHAR: u32 = 0xFFFF_FFFF;

/// The widest expansion `ct_visual_char` produces.
pub const VISUAL_WIDTH_MAX: usize = 8;

/// The growth step of the conversion buffers.
pub const CT_BUFSIZ: usize = 1024;

/// Character classes reported by `ct_chr_class`.
pub const CHTYPE_PRINT: i32 = 0;
pub const CHTYPE_ASCIICTL: i32 = -1;
pub const CHTYPE_TAB: i32 = -2;
pub const CHTYPE_NL: i32 = -3;
pub const CHTYPE_NONPRINT: i32 = -4;

/// The longest multibyte sequence of a character set.
pub fn mb_cur_max(cs: Charset) -> (n: usize)
    ensures
        n == (match cs {
            Charset::Ascii => 1usize,
            Charset::Utf8 => 4usize,
        }),
{
    match cs {
        Charset::Ascii => 1,
        Charset::Utf8 => 4,
    }
}

/// How many bytes `c` takes in `cs`, or `None` when `cs` cannot represent it.
pub open spec fn enc_width_spec(cs: Charset, c: u32) -> Option<usize> {
    match cs {
        Charset::Ascii => if c < 0x80 { Some(1usize) } else { None },
        Charset::Utf8 => if c <= 0x7F {
            Some(1usize)
        } else if c <= 0x7FF {
            Some(2usize)
        } else if 0xD800 <= c <= 0xDFFF {
            None
        } else if c <= 0xFFFF {
            Some(3usize)
        } else if c <= 0x10FFFF {
            Some(4usize)
        } else {
            None
        },
    }
}

/// The bytes of `c` in a sequence of `width` bytes: one byte as itself, more
/// as a UTF-8 lead byte and continuation bytes.
pub open spec fn encoded_bytes(c: u32, width: usize) -> Seq<u8> {
    if width == 1 {
        seq![c as u8]
    } else if width == 2 {
        seq![(0xC0u32 | (c >> 6u32)) as u8, (0x80u32 | (c & 0x3Fu32)) as u8]
    } else if width == 3 {
        seq![
            (0xE0u32 | (c >> 12u32)) as u8,
            (0x80u32 | ((c >> 6u32) & 0x3Fu32)) as u8,
            (0x80u32 | (c & 0x3Fu32)) as u8,
        ]
    } else {
        seq![
            (0xF0u32 | (c >> 18u32)) as u8,
            (0x80u32 | ((c >> 12u32) & 0x3Fu32)) as u8,
            (0x80u32 | ((c >> 6u32) & 0x3Fu32)) as u8,
            (0x80u32 | (c & 0x3Fu32)) as u8,
        ]
    }
}

/// The encoding of `c` in `cs`, when it has one.
pub open spec fn encoding(cs: Charset, c: u32) -> Option<Seq<u8>> {
    match enc_width_spec(cs, c) {
        Some(w) => Some(encoded_bytes(c, w)),
        None => None,
    }
}

/// The length of `c`'s encoding, `None` when `cs` cannot represent it.
pub fn enc_width(cs: Charset, c: u32) -> (width: Option<usize>)
    ensures
        width == enc_width_spec(cs, c),
{
    match cs {
        Charset::Ascii => if c < 0x80 {
            Some(1)
        } else {
            None
        },
        Charset::Utf8 => if c <= 0x7F {
            Some(1)
        } else if c <= 0x7FF {
            Some(2)
        } else if 0xD800 <= c && c <= 0xDFFF {
            None
        } else if c <= 0xFFFF {
            Some(3)
        } else if c <= 0x10FFFF {
            Some(4)
        } else {
            None
        },
    }
}

/// Write the encoding of `c` at the start of `dst`. `None`, with nothing
/// written, when `cs` cannot represent `c` or `dst` is too short.
pub fn encode(cs: Charset, dst: &mut [u8], c: u32) -> (written: Option<usize>)
    ensures
        match encoding(cs, c) {
            Some(bytes) => if bytes.len() <= old(dst)@.len() {
                written == Some(bytes.len() as usize) && final(dst)@ == bytes + old(dst)@.subrange(
                    bytes.len() as int,
                    old(dst)@.len() as int,
                )
            } else {
                written is None && final(dst)@ == old(dst)@
            },
            None => written is None && final(dst)@ == old(dst)@,
        },
{
    let width = match enc_width(cs, c) {
        Some(width) => width,
        None => {
            return None;
        },
    };
    if dst.len() < width {
        return None;
    }
    if width == 1 {
        dst[0] = c as u8;
    } else if width == 2 {
        dst[0] = (0xC0u32 | (c >> 6u32)) as u8;
        dst[1] = (0x80u32 | (c & 0x3Fu32)) as u8;
    } else if width == 3 {
        dst[0] = (0xE0u32 | (c >> 12u32)) as u8;
        dst[1] = (0x80u32 | ((c >> 6u32) & 0x3Fu32)) as u8;
        dst[2] = (0x80u32 | (c & 0x3Fu32)) as u8;
    } else {
        dst[0] = (0xF0u32 | (c >> 18u32)) as u8;
        dst[1] = (0x80u32 | ((c >> 12u32) & 0x3Fu32)) as u8;
        dst[2] = (0x80u32 | ((c >> 6u32) & 0x3Fu32)) as u8;
        dst[3] = (0x80u32 | (c & 0x3Fu32)) as u8;
    }
    proof {
        assert(final_bytes_match(dst@, old(dst)@, encoded_bytes(c, width)));
    }
    Some(width)
}

spec fn final_bytes_match(now: Seq<u8>, before: Seq<u8>, bytes: Seq<u8>) -> bool {
    now =~= bytes + before.subrange(bytes.len() as int, before.len() as int)
}

/// The value of a lead byte's payload followed by `k` continuation bytes.
pub open spec fn continued(s: Seq<u8>, lead: u32, k: nat) -> u32
    decreases k,
{
    if k == 0 {
        lead
    } else {
        (continued(s, lead, (k - 1) as nat) << 6u32) | ((s[k as int] & 0x3Fu8) as u32)
    }
}

/// Whether bytes `1..len` of `s` are continuation bytes.
pub open spec fn continuations(s: Seq<u8>, len: nat) -> bool {
    forall|j: int| 1 <= j < len ==> #[trigger] s[j] & 0xC0u8 == 0x80u8
}

/// A multibyte sequence of `len` bytes whose lead byte carries `lead`.
pub open spec fn finished(s: Seq<u8>, len: nat, lead: u32) -> Option<(u32, usize)> {
    if s.len() < len || !continuations(s, len) {
        None
    } else {
        let value = continued(s, lead, (len - 1) as nat);
        if (len == 3 && value < 0x800) || (len == 4 && value < 0x10000) || value > 0x10FFFF || (0xD800
            <= value <= 0xDFFF) {
            None
        } else {
            Some((value, len as usize))
        }
    }
}

/// The first character of `s` and the bytes it takes; `None` for an
/// invalid or incomplete sequence. UTF-8 decoding is strict: overlong
/// forms, surrogates and values above U+10FFFF are invalid.
pub open spec fn decode_one_spec(cs: Charset, s: Seq<u8>) -> Option<(u32, usize)> {
    if s.len() == 0 {
        None
    } else {
        let b0 = s[0];
        match cs {
            Charset::Ascii => if b0 < 0x80 { Some((b0 as u32, 1usize)) } else { None },
            Charset::Utf8 => if b0 <= 0x7F {
                Some((b0 as u32, 1usize))
            } else if 0xC2 <= b0 <= 0xDF {
                finished(s, 2, (b0 & 0x1Fu8) as u32)
            } else if 0xE0 <= b0 <= 0xEF {
                finished(s, 3, (b0 & 0x0Fu8) as u32)
            } else if 0xF0 <= b0 <= 0xF4 {
                finished(s, 4, (b0 & 0x07u8) as u32)
            } else {
                None
            },
        }
    }
}

/// Decode the first character of `s`.
pub fn decode_one(cs: Charset, s: &[u8]) -> (result: Option<(u32, usize)>)
    ensures
        result == decode_one_spec(cs, s@),
        result matches Some((_, n)) ==> 1 <= n <= s@.len(),
{
    if s.len() == 0 {
        return None;
    }
    let b0 = s[0];
    if cs == Charset::Ascii {
        return if b0 < 0x80 {
            Some((b0 as u32, 1))
        } else {
            None
        };
    }
    let (len, lead): (usize, u32) = if b0 <= 0x7F {
        return Some((b0 as u32, 1));
    } else if 0xC2 <= b0 && b0 <= 0xDF {
        (2, (b0 & 0x1Fu8) as u32)
    } else if 0xE0 <= b0 && b0 <= 0xEF {
        (3, (b0 & 0x0Fu8) as u32)
    } else if 0xF0 <= b0 && b0 <= 0xF4 {
        (4, (b0 & 0x07u8) as u32)
    } else {
        return None;
    };
    if s.len() < len {
        return None;
    }
    let mut acc = lead;
    let mut j: usize = 1;
    assert(decode_one_spec(cs, s@) == finished(s@, len as nat, lead));
    while j < len
        invariant
            decode_one_spec(cs, s@) == finished(s@, len as nat, lead),
            1 <= j <= len <= 4,
            len <= s@.len(),
            acc == continued(s@, lead, (j - 1) as nat),
            forall|i: int| 1 <= i < j ==> #[trigger] s@[i] & 0xC0u8 == 0x80u8,
        decreases len - j,
    {
        let b = s[j];
        if b & 0xC0u8 != 0x80u8 {
            proof {
                assert(!continuations(s@, len as nat));
            }
            return None;
        }
        acc = (acc << 6u32) | ((b & 0x3Fu8) as u32);
        j = j + 1;
    }
    let overlong = (len == 3 && acc < 0x800) || (len == 4 && acc < 0x10000);
    if overlong || acc > 0x10FFFF || (0xD800 <= acc && acc <= 0xDFFF) {
        return None;
    }
    Some((acc, len))
}

pub open spec fn prepend(prefix: Seq<u32>, rest: Option<Seq<u32>>) -> Option<Seq<u32>> {
    match rest {
        Some(r) => Some(prefix + r),
        None => None,
    }
}

/// The characters of at most `limit` leading characters of `s`; `None`
/// when an invalid sequence is met before the limit.
pub open spec fn decoded_upto(cs: Charset, s: Seq<u8>, limit: nat) -> Option<Seq<u32>>
    decreases s.len(),
{
    if s.len() == 0 || limit == 0 {
        Some(Seq::empty())
    } else {
        match decode_one_spec(cs, s) {
            None => None,
            Some((c, n)) => if n == 0 || n > s.len() {
                None
            } else {
                prepend(seq![c], decoded_upto(cs, s.subrange(n as int, s.len() as int), (limit - 1) as nat))
            },
        }
    }
}

/// The characters of all of `s`; `None` when any sequence is invalid.
pub open spec fn decoded(cs: Charset, s: Seq<u8>) -> Option<Seq<u32>> {
    decoded_upto(cs, s, s.len())
}

proof fn lemma_prepend_assoc(a: Seq<u32>, b: Seq<u32>, rest: Option<Seq<u32>>)
    ensures
        prepend(a, prepend(b, rest)) == prepend(a + b, rest),
{
    match rest {
        Some(r) => {
            assert(a + (b + r) =~= (a + b) + r);
        },
        None => {},
    }
}

proof fn lemma_decoded_upto_more(cs: Charset, s: Seq<u8>, limit: nat)
    requires
        limit >= s.len(),
    ensures
        decoded_upto(cs, s, limit) == decoded_upto(cs, s, s.len()),
    decreases s.len(),
{
    if s.len() == 0 {
    } else {
        match decode_one_spec(cs, s) {
            None => {},
            Some((c, n)) => if n == 0 || n > s.len() {
            } else {
                let rest = s.subrange(n as int, s.len() as int);
                lemma_decoded_upto_more(cs, rest, (limit - 1) as nat);
                lemma_decoded_upto_more(cs, rest, (s.len() - 1) as nat);
            },
        }
    }
}

proof fn lemma_decoded_len(cs: Charset, s: Seq<u8>, limit: nat)
    ensures
        decoded_upto(cs, s, limit) matches Some(w) ==> w.len() <= s.len() && w.len() <= limit,
    decreases s.len(),
{
    if s.len() == 0 || limit == 0 {
    } else {
        match decode_one_spec(cs, s) {
            None => {},
            Some((c, n)) => if n == 0 || n > s.len() {
            } else {
                lemma_decoded_len(cs, s.subrange(n as int, s.len() as int), (limit - 1) as nat);
            },
        }
    }
}

/// How many characters `s` decodes to, `None` when any sequence is invalid.
pub fn mbstowcs_len(cs: Charset, s: &[u8]) -> (count: Option<usize>)
    ensures
        match decoded(cs, s@) {
            Some(w) => count == Some(w.len() as usize) && w.len() <= s@.len(),
            None => count is None,
        },
{
    proof {
        lemma_decoded_len(cs, s@, s@.len());
    }
    let mut at: usize = 0;
    let mut count: usize = 0;
    let ghost mut prefix: Seq<u32> = Seq::empty();
    proof {
        assert(s@.subrange(0, s@.len() as int) =~= s@);
        match decoded(cs, s@) {
            Some(w) => {
                assert(Seq::<u32>::empty() + w =~= w);
            },
            None => {},
        }
    }
    while at < s.len()
        invariant
            at <= s@.len(),
            count == prefix.len(),
            count <= at,
            decoded(cs, s@) == prepend(prefix, decoded(cs, s@.subrange(at as int, s@.len() as int))),
        decreases s@.len() - at,
    {
        let rest = vstd::slice::slice_subrange(s, at, s.len());
        let (c, used) = match decode_one(cs, rest) {
            Some(found) => found,
            None => {
                return None;
            },
        };
        proof {
            let r = s@.subrange(at as int, s@.len() as int);
            assert(rest@ == r);
            let r2 = r.subrange(used as int, r.len() as int);
            assert(r2 =~= s@.subrange(at + used, s@.len() as int));
            lemma_decoded_upto_more(cs, r2, (r.len() - 1) as nat);
            lemma_prepend_assoc(prefix, seq![c], decoded(cs, r2));
            prefix = prefix + seq![c];
        }
        at = at + used;
        count = count + 1;
    }
    proof {
        assert(s@.subrange(at as int, s@.len() as int) =~= Seq::<u8>::empty());
        assert(prefix + Seq::<u32>::empty() =~= prefix);
    }
    Some(count)
}

/// Decode `s` into `dst`, at most `dst.len()` characters, and terminate with
/// a zero when room is left. Returns the number of characters written,
/// terminator excluded; `None` when an invalid sequence is met before `dst`
/// is full, in which case the characters before it may have been written.
pub fn mbstowcs(cs: Charset, dst: &mut [u32], s: &[u8]) -> (written: Option<usize>)
    ensures
        final(dst)@.len() == old(dst)@.len(),
        match decoded_upto(cs, s@, old(dst)@.len() as nat) {
            Some(w) => written == Some(w.len() as usize) && final(dst)@.subrange(0, w.len() as int) == w && (if w.len()
                < old(dst)@.len() {
                final(dst)@[w.len() as int] == 0 && final(dst)@.subrange(w.len() + 1int, old(dst)@.len() as int)
                    == old(dst)@.subrange(w.len() + 1int, old(dst)@.len() as int)
            } else {
                true
            }),
            None => written is None,
        },
{
    let ghost original = dst@;
    let limit = dst.len();
    let mut at: usize = 0;
    let mut count: usize = 0;
    let ghost mut prefix: Seq<u32> = Seq::empty();
    proof {
        assert(s@.subrange(0, s@.len() as int) =~= s@);
        match decoded_upto(cs, s@, limit as nat) {
            Some(w) => {
                assert(Seq::<u32>::empty() + w =~= w);
            },
            None => {},
        }
    }
    while at < s.len() && count < dst.len()
        invariant
            at <= s@.len(),
            count == prefix.len(),
            count <= limit,
            limit == dst@.len(),
            original == old(dst)@,
            dst@.len() == original.len(),
            dst@.subrange(0, count as int) == prefix,
            dst@.subrange(count as int, limit as int) == original.subrange(count as int, limit as int),
            decoded_upto(cs, s@, limit as nat) == prepend(
                prefix,
                decoded_upto(cs, s@.subrange(at as int, s@.len() as int), (limit - count) as nat),
            ),
        decreases s@.len() - at,
    {
        let rest = vstd::slice::slice_subrange(s, at, s.len());
        let (c, used) = match decode_one(cs, rest) {
            Some(found) => found,
            None => {
                return None;
            },
        };
        let ghost before = dst@;
        dst[count] = c;
        proof {
            let r = s@.subrange(at as int, s@.len() as int);
            assert(rest@ == r);
            let r2 = r.subrange(used as int, r.len() as int);
            assert(r2 =~= s@.subrange(at + used, s@.len() as int));
            lemma_prepend_assoc(prefix, seq![c], decoded_upto(cs, r2, (limit - count - 1) as nat));
            assert(dst@.subrange(0, count + 1) =~= prefix + seq![c]);
            assert(dst@.subrange(count + 1, limit as int) =~= before.subrange(count + 1, limit as int));
            assert forall|i: int| count + 1 <= i < limit implies before[i] == original[i] by {
                assert(before.subrange(count as int, limit as int)[i - count] == original.subrange(
                    count as int,
                    limit as int,
                )[i - count]);
            }
            assert(before.subrange(count + 1, limit as int) =~= original.subrange(count + 1, limit as int));
            prefix = prefix + seq![c];
        }
        at = at + used;
        count = count + 1;
    }
    proof {
        if at == s.len() {
            assert(s@.subrange(at as int, s@.len() as int) =~= Seq::<u8>::empty());
        }
        assert(prefix + Seq::<u32>::empty() =~= prefix);
    }
    if count < dst.len() {
        let ghost before = dst@;
        dst[count] = 0;
        proof {
            assert(dst@.subrange(0, count as int) =~= before.subrange(0, count as int));
            assert(dst@.subrange(count + 1, limit as int) =~= before.subrange(count + 1, limit as int));
            assert forall|i: int| count + 1 <= i < limit implies before[i] == original[i] by {
                assert(before.subrange(count as int, limit as int)[i - count] == original.subrange(
                    count as int,
                    limit as int,
                )[i - count]);
            }
            assert(before.subrange(count + 1, limit as int) =~= original.subrange(count + 1, limit as int));
        }
    }
    Some(count)
}

/// Whether `c` is a control character in `cs`.
pub open spec fn iswcntrl_spec(cs: Charset, c: u32) -> bool {
    match cs {
        Charset::Ascii => c < 0x20 || c == 0x7F,
        Charset::Utf8 => c < 0x20 || (0x7F <= c <= 0x9F) || c == 0x2028 || c == 0x2029,
    }
}

/// Whether `c` is a control character in `cs`; false for every value that
/// is not a code point.
pub fn iswcntrl(cs: Charset, c: u32) -> (control: bool)
    ensures
        control == iswcntrl_spec(cs, c),
{
    match cs {
        Charset::Ascii => c < 0x20 || c == 0x7F,
        Charset::Utf8 => c < 0x20 || (0x7F <= c && c <= 0x9F) || c == 0x2028 || c == 0x2029,
    }
}

/// Whether `c` is printable in `cs`. In UTF-8 every code point that is not
/// a control, a surrogate or a noncharacter counts as printable.
pub open spec fn iswprint_spec(cs: Charset, c: u32) -> bool {
    match cs {
        Charset::Ascii => 0x20 <= c <= 0x7E,
        Charset::Utf8 => c > 0x1F && c <= 0x10FFFF && !(0x7F <= c <= 0x9F) && !(0xD800 <= c <= 0xDFFF) && !(0xFDD0
            <= c <= 0xFDEF) && (c & 0xFFFEu32) != 0xFFFEu32,
    }
}

/// Whether `c` is printable in `cs`.
pub fn iswprint(cs: Charset, c: u32) -> (printable: bool)
    ensures
        printable == iswprint_spec(cs, c),
{
    match cs {
        Charset::Ascii => 0x20 <= c && c <= 0x7E,
        Charset::Utf8 => c > 0x1F && c <= 0x10FFFF && !(0x7F <= c && c <= 0x9F) && !(0xD800 <= c && c <= 0xDFFF)
            && !(0xFDD0 <= c && c <= 0xFDEF) && (c & 0xFFFEu32) != 0xFFFEu32,
    }
}

/// Whether `c` is a letter or a digit in `cs`.
pub open spec fn iswalnum_spec(cs: Charset, c: u32) -> bool {
    match cs {
        Charset::Ascii => (0x30 <= c <= 0x39) || (0x41 <= c <= 0x5A) || (0x61 <= c <= 0x7A),
        Charset::Utf8 => is_scalar_value(c) && char_is_alphanumeric(c as char),
    }
}

/// Whether `c` is a letter or a digit in `cs`.
pub fn iswalnum(cs: Charset, c: u32) -> (alnum: bool)
    ensures
        alnum == iswalnum_spec(cs, c),
{
    match cs {
        Charset::Ascii => (0x30 <= c && c <= 0x39) || (0x41 <= c && c <= 0x5A) || (0x61 <= c && c <= 0x7A),
        Charset::Utf8 => match char_from_u32(c) {
            Some(ch) => is_alphanumeric(ch),
            None => false,
        },
    }
}

/// Whether `c` is white space in `cs`.
pub open spec fn iswspace_spec(cs: Charset, c: u32) -> bool {
    match cs {
        Charset::Ascii => c == 0x20 || (0x09 <= c <= 0x0D),
        Charset::Utf8 => is_scalar_value(c) && char_is_whitespace(c as char),
    }
}

/// Whether `c` is white space in `cs`.
pub fn iswspace(cs: Charset, c: u32) -> (space: bool)
    ensures
        space == iswspace_spec(cs, c),
{
    match cs {
        Charset::Ascii => c == 0x20 || (0x09 <= c && c <= 0x0D),
        Charset::Utf8 => match char_from_u32(c) {
            Some(ch) => is_whitespace(ch),
            None => false,
        },
    }
}

/// Whether `c` is printable and not white space in `cs`.
pub open spec fn iswgraph_spec(cs: Charset, c: u32) -> bool {
    iswprint_spec(cs, c) && !iswspace_spec(cs, c)
}

/// Whether `c` is printable and not white space in `cs`.
pub fn iswgraph(cs: Charset, c: u32) -> (graphic: bool)
    ensures
        graphic == iswgraph_spec(cs, c),
{
    iswprint(cs, c) && !iswspace(cs, c)
}

/// Combining marks and format characters: zero terminal columns.
pub open spec fn zero_width_table() -> Seq<(u32, u32)> {
    seq![
        (0x0300u32, 0x036Fu32), (0x0483u32, 0x0489u32), (0x0591u32, 0x05BDu32), (0x05BFu32, 0x05BFu32),
        (0x05C1u32, 0x05C2u32), (0x05C4u32, 0x05C5u32), (0x05C7u32, 0x05C7u32), (0x0610u32, 0x061Au32),
        (0x064Bu32, 0x065Fu32), (0x0670u32, 0x0670u32), (0x06D6u32, 0x06DCu32), (0x06DFu32, 0x06E4u32),
        (0x06E7u32, 0x06E8u32), (0x06EAu32, 0x06EDu32), (0x0711u32, 0x0711u32), (0x0730u32, 0x074Au32),
        (0x07A6u32, 0x07B0u32), (0x07EBu32, 0x07F3u32), (0x0816u32, 0x0819u32), (0x081Bu32, 0x0823u32),
        (0x0825u32, 0x0827u32), (0x0829u32, 0x082Du32), (0x0859u32, 0x085Bu32), (0x08E3u32, 0x0902u32),
        (0x093Au32, 0x093Au32), (0x093Cu32, 0x093Cu32), (0x0941u32, 0x0948u32), (0x094Du32, 0x094Du32),
        (0x0951u32, 0x0957u32), (0x0962u32, 0x0963u32), (0x0981u32, 0x0981u32), (0x09BCu32, 0x09BCu32),
        (0x09C1u32, 0x09C4u32), (0x09CDu32, 0x09CDu32), (0x09E2u32, 0x09E3u32), (0x0A01u32, 0x0A02u32),
        (0x0A3Cu32, 0x0A3Cu32), (0x0A41u32, 0x0A42u32), (0x0A47u32, 0x0A48u32), (0x0A4Bu32, 0x0A4Du32),
        (0x0A51u32, 0x0A51u32), (0x0A70u32, 0x0A71u32), (0x0A75u32, 0x0A75u32), (0x0A81u32, 0x0A82u32),
        (0x0ABCu32, 0x0ABCu32), (0x0AC1u32, 0x0AC5u32), (0x0AC7u32, 0x0AC8u32), (0x0ACDu32, 0x0ACDu32),
        (0x0AE2u32, 0x0AE3u32), (0x0B01u32, 0x0B01u32), (0x0B3Cu32, 0x0B3Cu32), (0x0B3Fu32, 0x0B3Fu32),
        (0x0B41u32, 0x0B44u32), (0x0B4Du32, 0x0B4Du32), (0x0B56u32, 0x0B56u32), (0x0B62u32, 0x0B63u32),
        (0x0B82u32, 0x0B82u32), (0x0BC0u32, 0x0BC0u32), (0x0BCDu32, 0x0BCDu32), (0x0C00u32, 0x0C00u32),
        (0x0C3Eu32, 0x0C40u32), (0x0C46u32, 0x0C48u32), (0x0C4Au32, 0x0C4Du32), (0x0C55u32, 0x0C56u32),
        (0x0C62u32, 0x0C63u32), (0x0C81u32, 0x0C81u32), (0x0CBCu32, 0x0CBCu32), (0x0CBFu32, 0x0CBFu32),
        (0x0CC6u32, 0x0CC6u32), (0x0CCCu32, 0x0CCDu32), (0x0CE2u32, 0x0CE3u32), (0x0D01u32, 0x0D01u32),
        (0x0D41u32, 0x0D44u32), (0x0D4Du32, 0x0D4Du32), (0x0D62u32, 0x0D63u32), (0x0DCAu32, 0x0DCAu32),
        (0x0DD2u32, 0x0DD4u32), (0x0DD6u32, 0x0DD6u32), (0x0E31u32, 0x0E31u32), (0x0E34u32, 0x0E3Au32),
        (0x0E47u32, 0x0E4Eu32), (0x0EB1u32, 0x0EB1u32), (0x0EB4u32, 0x0EB9u32), (0x0EBBu32, 0x0EBCu32),
        (0x0EC8u32, 0x0ECDu32), (0x0F18u32, 0x0F19u32), (0x0F35u32, 0x0F35u32), (0x0F37u32, 0x0F37u32),
        (0x0F39u32, 0x0F39u32), (0x0F71u32, 0x0F7Eu32), (0x0F80u32, 0x0F84u32), (0x0F86u32, 0x0F87u32),
        (0x0F8Du32, 0x0F97u32), (0x0F99u32, 0x0FBCu32), (0x0FC6u32, 0x0FC6u32), (0x102Du32, 0x1030u32),
        (0x1032u32, 0x1037u32), (0x1039u32, 0x103Au32), (0x103Du32, 0x103Eu32), (0x1058u32, 0x1059u32),
        (0x105Eu32, 0x1060u32), (0x1071u32, 0x1074u32), (0x1082u32, 0x1082u32), (0x1085u32, 0x1086u32),
        (0x108Du32, 0x108Du32), (0x109Du32, 0x109Du32), (0x1160u32, 0x11FFu32), (0x135Du32, 0x135Fu32),
        (0x1712u32, 0x1714u32), (0x1732u32, 0x1734u32), (0x1752u32, 0x1753u32), (0x1772u32, 0x1773u32),
        (0x17B4u32, 0x17B5u32), (0x17B7u32, 0x17BDu32), (0x17C6u32, 0x17C6u32), (0x17C9u32, 0x17D3u32),
        (0x17DDu32, 0x17DDu32), (0x180Bu32, 0x180Eu32), (0x18A9u32, 0x18A9u32), (0x1920u32, 0x1922u32),
        (0x1927u32, 0x1928u32), (0x1932u32, 0x1932u32), (0x1939u32, 0x193Bu32), (0x1A17u32, 0x1A18u32),
        (0x1A60u32, 0x1A60u32), (0x1A75u32, 0x1A7Cu32), (0x1A7Fu32, 0x1A7Fu32), (0x1AB0u32, 0x1AFFu32),
        (0x1B00u32, 0x1B03u32), (0x1B34u32, 0x1B34u32), (0x1B36u32, 0x1B3Au32), (0x1B3Cu32, 0x1B3Cu32),
        (0x1B42u32, 0x1B42u32), (0x1B6Bu32, 0x1B73u32), (0x1B80u32, 0x1B81u32), (0x1BA2u32, 0x1BA5u32),
        (0x1BA8u32, 0x1BA9u32), (0x1BE6u32, 0x1BE6u32), (0x1BE8u32, 0x1BE9u32), (0x1BEDu32, 0x1BEDu32),
        (0x1BEFu32, 0x1BF1u32), (0x1C2Cu32, 0x1C33u32), (0x1C36u32, 0x1C37u32), (0x1CD0u32, 0x1CD2u32),
        (0x1CD4u32, 0x1CE0u32), (0x1CE2u32, 0x1CE8u32), (0x1CEDu32, 0x1CEDu32), (0x1CF4u32, 0x1CF4u32),
        (0x1DC0u32, 0x1DFFu32), (0x200Bu32, 0x200Fu32), (0x202Au32, 0x202Eu32), (0x2060u32, 0x2064u32),
        (0x2066u32, 0x206Fu32), (0x20D0u32, 0x20F0u32), (0x2CEFu32, 0x2CF1u32), (0x2D7Fu32, 0x2D7Fu32),
        (0x2DE0u32, 0x2DFFu32), (0x302Au32, 0x302Du32), (0x3099u32, 0x309Au32), (0xA66Fu32, 0xA672u32),
        (0xA674u32, 0xA67Du32), (0xA69Eu32, 0xA69Fu32), (0xA6F0u32, 0xA6F1u32), (0xA802u32, 0xA802u32),
        (0xA806u32, 0xA806u32), (0xA80Bu32, 0xA80Bu32), (0xA825u32, 0xA826u32), (0xA8C4u32, 0xA8C5u32),
        (0xA8E0u32, 0xA8F1u32), (0xA926u32, 0xA92Du32), (0xA947u32, 0xA951u32), (0xA980u32, 0xA982u32),
        (0xA9B3u32, 0xA9B3u32), (0xA9B6u32, 0xA9B9u32), (0xA9BCu32, 0xA9BCu32), (0xAA29u32, 0xAA2Eu32),
        (0xAA31u32, 0xAA32u32), (0xAA35u32, 0xAA36u32), (0xAA43u32, 0xAA43u32), (0xAA4Cu32, 0xAA4Cu32),
        (0xAAB0u32, 0xAAB0u32), (0xAAB2u32, 0xAAB4u32), (0xAAB7u32, 0xAAB8u32), (0xAABEu32, 0xAABFu32),
        (0xAAC1u32, 0xAAC1u32), (0xAAECu32, 0xAAEDu32), (0xAAF6u32, 0xAAF6u32), (0xABE5u32, 0xABE5u32),
        (0xABE8u32, 0xABE8u32), (0xABEDu32, 0xABEDu32), (0xFB1Eu32, 0xFB1Eu32), (0xFE00u32, 0xFE0Fu32),
        (0xFE20u32, 0xFE2Fu32), (0xFEFFu32, 0xFEFFu32), (0xFFF9u32, 0xFFFBu32), (0x101FDu32, 0x101FDu32),
        (0x10376u32, 0x1037Au32), (0x10A01u32, 0x10A0Fu32), (0x10A38u32, 0x10A3Fu32), (0x11001u32, 0x11001u32),
        (0x11038u32, 0x11046u32), (0x1112Du32, 0x11134u32), (0x11180u32, 0x11181u32), (0x111B6u32, 0x111BEu32),
        (0x116ABu32, 0x116ADu32), (0x116B0u32, 0x116B7u32), (0x11C30u32, 0x11C3Du32), (0x1D165u32, 0x1D169u32),
        (0x1D16Du32, 0x1D172u32), (0x1D17Bu32, 0x1D182u32), (0x1D185u32, 0x1D18Bu32), (0x1D1AAu32, 0x1D1ADu32),
        (0x1D242u32, 0x1D244u32), (0xE0001u32, 0xE0001u32), (0xE0020u32, 0xE007Fu32), (0xE0100u32, 0xE01EFu32),
    ]
}

/// East Asian wide and fullwidth characters and wide emoji: two terminal
/// columns.
pub open spec fn wide_table() -> Seq<(u32, u32)> {
    seq![
        (0x1100u32, 0x115Fu32), (0x231Au32, 0x231Bu32), (0x2329u32, 0x232Au32), (0x23E9u32, 0x23ECu32),
        (0x23F0u32, 0x23F0u32), (0x23F3u32, 0x23F3u32), (0x25FDu32, 0x25FEu32), (0x2614u32, 0x2615u32),
        (0x2648u32, 0x2653u32), (0x267Fu32, 0x267Fu32), (0x2693u32, 0x2693u32), (0x26A1u32, 0x26A1u32),
        (0x26AAu32, 0x26ABu32), (0x26BDu32, 0x26BEu32), (0x26C4u32, 0x26C5u32), (0x26CEu32, 0x26CEu32),
        (0x26D4u32, 0x26D4u32), (0x26EAu32, 0x26EAu32), (0x26F2u32, 0x26F3u32), (0x26F5u32, 0x26F5u32),
        (0x26FAu32, 0x26FAu32), (0x26FDu32, 0x26FDu32), (0x2705u32, 0x2705u32), (0x270Au32, 0x270Bu32),
        (0x2728u32, 0x2728u32), (0x274Cu32, 0x274Cu32), (0x274Eu32, 0x274Eu32), (0x2753u32, 0x2755u32),
        (0x2757u32, 0x2757u32), (0x2795u32, 0x2797u32), (0x27B0u32, 0x27B0u32), (0x27BFu32, 0x27BFu32),
        (0x2B1Bu32, 0x2B1Cu32), (0x2B50u32, 0x2B50u32), (0x2B55u32, 0x2B55u32), (0x2E80u32, 0x303Eu32),
        (0x3041u32, 0x33FFu32), (0x3400u32, 0x4DBFu32), (0x4E00u32, 0x9FFFu32), (0xA000u32, 0xA4CFu32),
        (0xA960u32, 0xA97Fu32), (0xAC00u32, 0xD7A3u32), (0xF900u32, 0xFAFFu32), (0xFE10u32, 0xFE19u32),
        (0xFE30u32, 0xFE6Fu32), (0xFF00u32, 0xFF60u32), (0xFFE0u32, 0xFFE6u32), (0x16FE0u32, 0x16FE4u32),
        (0x17000u32, 0x187F7u32), (0x18800u32, 0x18AFFu32), (0x1B000u32, 0x1B001u32), (0x1F004u32, 0x1F004u32),
        (0x1F0CFu32, 0x1F0CFu32), (0x1F18Eu32, 0x1F18Eu32), (0x1F191u32, 0x1F19Au32), (0x1F200u32, 0x1F202u32),
        (0x1F210u32, 0x1F23Bu32), (0x1F240u32, 0x1F248u32), (0x1F250u32, 0x1F251u32), (0x1F300u32, 0x1F64Fu32),
        (0x1F680u32, 0x1F6C5u32), (0x1F900u32, 0x1F9FFu32), (0x20000u32, 0x2FFFDu32), (0x30000u32, 0x3FFFDu32),
    ]
}

/// The zero-width ranges, sorted and disjoint.
pub fn zero_width_ranges() -> (table: Vec<(u32, u32)>)
    ensures
        table@ == zero_width_table(),
{
    let table = vec![
        (0x0300u32, 0x036Fu32), (0x0483u32, 0x0489u32), (0x0591u32, 0x05BDu32), (0x05BFu32, 0x05BFu32),
        (0x05C1u32, 0x05C2u32), (0x05C4u32, 0x05C5u32), (0x05C7u32, 0x05C7u32), (0x0610u32, 0x061Au32),
        (0x064Bu32, 0x065Fu32), (0x0670u32, 0x0670u32), (0x06D6u32, 0x06DCu32), (0x06DFu32, 0x06E4u32),
        (0x06E7u32, 0x06E8u32), (0x06EAu32, 0x06EDu32), (0x0711u32, 0x0711u32), (0x0730u32, 0x074Au32),
        (0x07A6u32, 0x07B0u32), (0x07EBu32, 0x07F3u32), (0x0816u32, 0x0819u32), (0x081Bu32, 0x0823u32),
        (0x0825u32, 0x0827u32), (0x0829u32, 0x082Du32), (0x0859u32, 0x085Bu32), (0x08E3u32, 0x0902u32),
        (0x093Au32, 0x093Au32), (0x093Cu32, 0x093Cu32), (0x0941u32, 0x0948u32), (0x094Du32, 0x094Du32),
        (0x0951u32, 0x0957u32), (0x0962u32, 0x0963u32), (0x0981u32, 0x0981u32), (0x09BCu32, 0x09BCu32),
        (0x09C1u32, 0x09C4u32), (0x09CDu32, 0x09CDu32), (0x09E2u32, 0x09E3u32), (0x0A01u32, 0x0A02u32),
        (0x0A3Cu32, 0x0A3Cu32), (0x0A41u32, 0x0A42u32), (0x0A47u32, 0x0A48u32), (0x0A4Bu32, 0x0A4Du32),
        (0x0A51u32, 0x0A51u32), (0x0A70u32, 0x0A71u32), (0x0A75u32, 0x0A75u32), (0x0A81u32, 0x0A82u32),
        (0x0ABCu32, 0x0ABCu32), (0x0AC1u32, 0x0AC5u32), (0x0AC7u32, 0x0AC8u32), (0x0ACDu32, 0x0ACDu32),
        (0x0AE2u32, 0x0AE3u32), (0x0B01u32, 0x0B01u32), (0x0B3Cu32, 0x0B3Cu32), (0x0B3Fu32, 0x0B3Fu32),
        (0x0B41u32, 0x0B44u32), (0x0B4Du32, 0x0B4Du32), (0x0B56u32, 0x0B56u32), (0x0B62u32, 0x0B63u32),
        (0x0B82u32, 0x0B82u32), (0x0BC0u32, 0x0BC0u32), (0x0BCDu32, 0x0BCDu32), (0x0C00u32, 0x0C00u32),
        (0x0C3Eu32, 0x0C40u32), (0x0C46u32, 0x0C48u32), (0x0C4Au32, 0x0C4Du32), (0x0C55u32, 0x0C56u32),
        (0x0C62u32, 0x0C63u32), (0x0C81u32, 0x0C81u32), (0x0CBCu32, 0x0CBCu32), (0x0CBFu32, 0x0CBFu32),
        (0x0CC6u32, 0x0CC6u32), (0x0CCCu32, 0x0CCDu32), (0x0CE2u32, 0x0CE3u32), (0x0D01u32, 0x0D01u32),
        (0x0D41u32, 0x0D44u32), (0x0D4Du32, 0x0D4Du32), (0x0D62u32, 0x0D63u32), (0x0DCAu32, 0x0DCAu32),
        (0x0DD2u32, 0x0DD4u32), (0x0DD6u32, 0x0DD6u32), (0x0E31u32, 0x0E31u32), (0x0E34u32, 0x0E3Au32),
        (0x0E47u32, 0x0E4Eu32), (0x0EB1u32, 0x0EB1u32), (0x0EB4u32, 0x0EB9u32), (0x0EBBu32, 0x0EBCu32),
        (0x0EC8u32, 0x0ECDu32), (0x0F18u32, 0x0F19u32), (0x0F35u32, 0x0F35u32), (0x0F37u32, 0x0F37u32),
        (0x0F39u32, 0x0F39u32), (0x0F71u32, 0x0F7Eu32), (0x0F80u32, 0x0F84u32), (0x0F86u32, 0x0F87u32),
        (0x0F8Du32, 0x0F97u32), (0x0F99u32, 0x0FBCu32), (0x0FC6u32, 0x0FC6u32), (0x102Du32, 0x1030u32),
        (0x1032u32, 0x1037u32), (0x1039u32, 0x103Au32), (0x103Du32, 0x103Eu32), (0x1058u32, 0x1059u32),
        (0x105Eu32, 0x1060u32), (0x1071u32, 0x1074u32), (0x1082u32, 0x1082u32), (0x1085u32, 0x1086u32),
        (0x108Du32, 0x108Du32), (0x109Du32, 0x109Du32), (0x1160u32, 0x11FFu32), (0x135Du32, 0x135Fu32),
        (0x1712u32, 0x1714u32), (0x1732u32, 0x1734u32), (0x1752u32, 0x1753u32), (0x1772u32, 0x1773u32),
        (0x17B4u32, 0x17B5u32), (0x17B7u32, 0x17BDu32), (0x17C6u32, 0x17C6u32), (0x17C9u32, 0x17D3u32),
        (0x17DDu32, 0x17DDu32), (0x180Bu32, 0x180Eu32), (0x18A9u32, 0x18A9u32), (0x1920u32, 0x1922u32),
        (0x1927u32, 0x1928u32), (0x1932u32, 0x1932u32), (0x1939u32, 0x193Bu32), (0x1A17u32, 0x1A18u32),
        (0x1A60u32, 0x1A60u32), (0x1A75u32, 0x1A7Cu32), (0x1A7Fu32, 0x1A7Fu32), (0x1AB0u32, 0x1AFFu32),
        (0x1B00u32, 0x1B03u32), (0x1B34u32, 0x1B34u32), (0x1B36u32, 0x1B3Au32), (0x1B3Cu32, 0x1B3Cu32),
        (0x1B42u32, 0x1B42u32), (0x1B6Bu32, 0x1B73u32), (0x1B80u32, 0x1B81u32), (0x1BA2u32, 0x1BA5u32),
        (0x1BA8u32, 0x1BA9u32), (0x1BE6u32, 0x1BE6u32), (0x1BE8u32, 0x1BE9u32), (0x1BEDu32, 0x1BEDu32),
        (0x1BEFu32, 0x1BF1u32), (0x1C2Cu32, 0x1C33u32), (0x1C36u32, 0x1C37u32), (0x1CD0u32, 0x1CD2u32),
        (0x1CD4u32, 0x1CE0u32), (0x1CE2u32, 0x1CE8u32), (0x1CEDu32, 0x1CEDu32), (0x1CF4u32, 0x1CF4u32),
        (0x1DC0u32, 0x1DFFu32), (0x200Bu32, 0x200Fu32), (0x202Au32, 0x202Eu32), (0x2060u32, 0x2064u32),
        (0x2066u32, 0x206Fu32), (0x20D0u32, 0x20F0u32), (0x2CEFu32, 0x2CF1u32), (0x2D7Fu32, 0x2D7Fu32),
        (0x2DE0u32, 0x2DFFu32), (0x302Au32, 0x302Du32), (0x3099u32, 0x309Au32), (0xA66Fu32, 0xA672u32),
        (0xA674u32, 0xA67Du32), (0xA69Eu32, 0xA69Fu32), (0xA6F0u32, 0xA6F1u32), (0xA802u32, 0xA802u32),
        (0xA806u32, 0xA806u32), (0xA80Bu32, 0xA80Bu32), (0xA825u32, 0xA826u32), (0xA8C4u32, 0xA8C5u32),
        (0xA8E0u32, 0xA8F1u32), (0xA926u32, 0xA92Du32), (0xA947u32, 0xA951u32), (0xA980u32, 0xA982u32),
        (0xA9B3u32, 0xA9B3u32), (0xA9B6u32, 0xA9B9u32), (0xA9BCu32, 0xA9BCu32), (0xAA29u32, 0xAA2Eu32),
        (0xAA31u32, 0xAA32u32), (0xAA35u32, 0xAA36u32), (0xAA43u32, 0xAA43u32), (0xAA4Cu32, 0xAA4Cu32),
        (0xAAB0u32, 0xAAB0u32), (0xAAB2u32, 0xAAB4u32), (0xAAB7u32, 0xAAB8u32), (0xAABEu32, 0xAABFu32),
        (0xAAC1u32, 0xAAC1u32), (0xAAECu32, 0xAAEDu32), (0xAAF6u32, 0xAAF6u32), (0xABE5u32, 0xABE5u32),
        (0xABE8u32, 0xABE8u32), (0xABEDu32, 0xABEDu32), (0xFB1Eu32, 0xFB1Eu32), (0xFE00u32, 0xFE0Fu32),
        (0xFE20u32, 0xFE2Fu32), (0xFEFFu32, 0xFEFFu32), (0xFFF9u32, 0xFFFBu32), (0x101FDu32, 0x101FDu32),
        (0x10376u32, 0x1037Au32), (0x10A01u32, 0x10A0Fu32), (0x10A38u32, 0x10A3Fu32), (0x11001u32, 0x11001u32),
        (0x11038u32, 0x11046u32), (0x1112Du32, 0x11134u32), (0x11180u32, 0x11181u32), (0x111B6u32, 0x111BEu32),
        (0x116ABu32, 0x116ADu32), (0x116B0u32, 0x116B7u32), (0x11C30u32, 0x11C3Du32), (0x1D165u32, 0x1D169u32),
        (0x1D16Du32, 0x1D172u32), (0x1D17Bu32, 0x1D182u32), (0x1D185u32, 0x1D18Bu32), (0x1D1AAu32, 0x1D1ADu32),
        (0x1D242u32, 0x1D244u32), (0xE0001u32, 0xE0001u32), (0xE0020u32, 0xE007Fu32), (0xE0100u32, 0xE01EFu32),
    ];
    assert(table@ =~= zero_width_table());
    table
}

/// The double-width ranges, sorted and disjoint.
pub fn wide_ranges() -> (table: Vec<(u32, u32)>)
    ensures
        table@ == wide_table(),
{
    let table = vec![
        (0x1100u32, 0x115Fu32), (0x231Au32, 0x231Bu32), (0x2329u32, 0x232Au32), (0x23E9u32, 0x23ECu32),
        (0x23F0u32, 0x23F0u32), (0x23F3u32, 0x23F3u32), (0x25FDu32, 0x25FEu32), (0x2614u32, 0x2615u32),
        (0x2648u32, 0x2653u32), (0x267Fu32, 0x267Fu32), (0x2693u32, 0x2693u32), (0x26A1u32, 0x26A1u32),
        (0x26AAu32, 0x26ABu32), (0x26BDu32, 0x26BEu32), (0x26C4u32, 0x26C5u32), (0x26CEu32, 0x26CEu32),
        (0x26D4u32, 0x26D4u32), (0x26EAu32, 0x26EAu32), (0x26F2u32, 0x26F3u32), (0x26F5u32, 0x26F5u32),
        (0x26FAu32, 0x26FAu32), (0x26FDu32, 0x26FDu32), (0x2705u32, 0x2705u32), (0x270Au32, 0x270Bu32),
        (0x2728u32, 0x2728u32), (0x274Cu32, 0x274Cu32), (0x274Eu32, 0x274Eu32), (0x2753u32, 0x2755u32),
        (0x2757u32, 0x2757u32), (0x2795u32, 0x2797u32), (0x27B0u32, 0x27B0u32), (0x27BFu32, 0x27BFu32),
        (0x2B1Bu32, 0x2B1Cu32), (0x2B50u32, 0x2B50u32), (0x2B55u32, 0x2B55u32), (0x2E80u32, 0x303Eu32),
        (0x3041u32, 0x33FFu32), (0x3400u32, 0x4DBFu32), (0x4E00u32, 0x9FFFu32), (0xA000u32, 0xA4CFu32),
        (0xA960u32, 0xA97Fu32), (0xAC00u32, 0xD7A3u32), (0xF900u32, 0xFAFFu32), (0xFE10u32, 0xFE19u32),
        (0xFE30u32, 0xFE6Fu32), (0xFF00u32, 0xFF60u32), (0xFFE0u32, 0xFFE6u32), (0x16FE0u32, 0x16FE4u32),
        (0x17000u32, 0x187F7u32), (0x18800u32, 0x18AFFu32), (0x1B000u32, 0x1B001u32), (0x1F004u32, 0x1F004u32),
        (0x1F0CFu32, 0x1F0CFu32), (0x1F18Eu32, 0x1F18Eu32), (0x1F191u32, 0x1F19Au32), (0x1F200u32, 0x1F202u32),
        (0x1F210u32, 0x1F23Bu32), (0x1F240u32, 0x1F248u32), (0x1F250u32, 0x1F251u32), (0x1F300u32, 0x1F64Fu32),
        (0x1F680u32, 0x1F6C5u32), (0x1F900u32, 0x1F9FFu32), (0x20000u32, 0x2FFFDu32), (0x30000u32, 0x3FFFDu32),
    ];
    assert(table@ =~= wide_table());
    table
}

/// Whether `c` lies in one of the ranges of `table`.
pub open spec fn in_table(table: Seq<(u32, u32)>, c: u32) -> bool {
    exists|i: int| 0 <= i < table.len() && #[trigger] table[i].0 <= c && c <= table[i].1
}

/// Whether `c` lies in one of the ranges of `table`.
pub fn in_ranges(table: &[(u32, u32)], c: u32) -> (found: bool)
    ensures
        found == in_table(table@, c),
{
    let mut i: usize = 0;
    while i < table.len()
        invariant
            i <= table@.len(),
            forall|j: int| 0 <= j < i ==> !(#[trigger] table@[j].0 <= c && c <= table@[j].1),
        decreases table@.len() - i,
    {
        let (lo, hi) = table[i];
        if lo <= c && c <= hi {
            return true;
        }
        i = i + 1;
    }
    false
}

/// Terminal columns of `c`: 0 for a zero-width character, 2 for a wide one
/// and -1 for one `cs` calls unprintable.
pub open spec fn wcwidth_spec(cs: Charset, c: u32) -> i32 {
    if c == 0 {
        0i32
    } else if !iswprint_spec(cs, c) {
        -1i32
    } else if cs == Charset::Ascii {
        1i32
    } else if in_table(zero_width_table(), c) {
        0i32
    } else if in_table(wide_table(), c) {
        2i32
    } else {
        1i32
    }
}

/// Terminal columns of `c` in `cs`.
pub fn wcwidth(cs: Charset, c: u32) -> (width: i32)
    ensures
        width == wcwidth_spec(cs, c),
{
    if c == 0 {
        return 0;
    }
    if !iswprint(cs, c) {
        return -1;
    }
    if cs == Charset::Ascii {
        return 1;
    }
    let zero = zero_width_ranges();
    if in_ranges(zero.as_slice(), c) {
        return 0;
    }
    let wide = wide_ranges();
    if in_ranges(wide.as_slice(), c) {
        2
    } else {
        1
    }
}

/// The code points that Unicode's East Asian Width data marks Wide (W) or
/// Fullwidth (F), with the emoji that terminals draw two columns wide,
/// less the combining marks among them (the ideographic tone marks
/// U+302A..U+302D and the kana voicing marks U+3099, U+309A): Hangul Jamo
/// leaders, CJK radicals, kana, CJK ideographs and their extensions, Yi,
/// Hangul syllables, compatibility ideographs, vertical and small forms,
/// fullwidth forms, Tangut, Nushu, kana supplements, wide emoji, and the
/// supplementary and tertiary ideographic planes.
pub open spec fn east_asian_wide_blocks() -> Seq<(u32, u32)> {
    seq![
        (0x1100u32, 0x115Fu32), (0x231Au32, 0x231Bu32), (0x2329u32, 0x232Au32), (0x23E9u32, 0x23ECu32),
        (0x23F0u32, 0x23F0u32), (0x23F3u32, 0x23F3u32), (0x25FDu32, 0x25FEu32), (0x2614u32, 0x2615u32),
        (0x2648u32, 0x2653u32), (0x267Fu32, 0x267Fu32), (0x2693u32, 0x2693u32), (0x26A1u32, 0x26A1u32),
        (0x26AAu32, 0x26ABu32), (0x26BDu32, 0x26BEu32), (0x26C4u32, 0x26C5u32), (0x26CEu32, 0x26CEu32),
        (0x26D4u32, 0x26D4u32), (0x26EAu32, 0x26EAu32), (0x26F2u32, 0x26F3u32), (0x26F5u32, 0x26F5u32),
        (0x26FAu32, 0x26FAu32), (0x26FDu32, 0x26FDu32), (0x2705u32, 0x2705u32), (0x270Au32, 0x270Bu32),
        (0x2728u32, 0x2728u32), (0x274Cu32, 0x274Cu32), (0x274Eu32, 0x274Eu32), (0x2753u32, 0x2755u32),
        (0x2757u32, 0x2757u32), (0x2795u32, 0x2797u32), (0x27B0u32, 0x27B0u32), (0x27BFu32, 0x27BFu32),
        (0x2B1Bu32, 0x2B1Cu32), (0x2B50u32, 0x2B50u32), (0x2B55u32, 0x2B55u32), (0x2E80u32, 0x3029u32),
        (0x302Eu32, 0x303Eu32), (0x3041u32, 0x3098u32), (0x309Bu32, 0x33FFu32), (0x3400u32, 0x4DBFu32),
        (0x4E00u32, 0x9FFFu32), (0xA000u32, 0xA4CFu32), (0xA960u32, 0xA97Fu32), (0xAC00u32, 0xD7A3u32),
        (0xF900u32, 0xFAFFu32), (0xFE10u32, 0xFE19u32), (0xFE30u32, 0xFE6Fu32), (0xFF00u32, 0xFF60u32),
        (0xFFE0u32, 0xFFE6u32), (0x16FE0u32, 0x16FE4u32), (0x17000u32, 0x187F7u32), (0x18800u32, 0x18AFFu32),
        (0x1B000u32, 0x1B001u32), (0x1F004u32, 0x1F004u32), (0x1F0CFu32, 0x1F0CFu32), (0x1F18Eu32, 0x1F18Eu32),
        (0x1F191u32, 0x1F19Au32), (0x1F200u32, 0x1F202u32), (0x1F210u32, 0x1F23Bu32), (0x1F240u32, 0x1F248u32),
        (0x1F250u32, 0x1F251u32), (0x1F300u32, 0x1F64Fu32), (0x1F680u32, 0x1F6C5u32), (0x1F900u32, 0x1F9FFu32),
        (0x20000u32, 0x2FFFDu32), (0x30000u32, 0x3FFFDu32),
    ]
}

/// The first `n` ranges of `table` are nonempty and in increasing order,
/// each ending before the next begins.
spec fn sorted_ranges(table: Seq<(u32, u32)>, n: int) -> bool
    decreases n,
{
    if n <= 0 {
        true
    } else {
        table[n - 1].0 <= table[n - 1].1 && (n == 1 || table[n - 2].1 < table[n - 1].0) && sorted_ranges(
            table,
            n - 1,
        )
    }
}

/// `[lo, hi]` holds only printable code points (the noncharacters aside),
/// lies inside wide range `j`, and falls between zero-width ranges `p - 1`
/// and `p`.
spec fn block_placed(lo: u32, hi: u32, j: int, p: int) -> bool {
    &&& lo <= hi
    &&& 0xA0 <= lo
    &&& hi <= 0x10FFFF
    &&& (hi < 0xD800 || 0xDFFF < lo)
    &&& (hi < 0xFDD0 || 0xFDEF < lo)
    &&& 0 <= j < wide_table().len()
    &&& wide_table()[j].0 <= lo
    &&& hi <= wide_table()[j].1
    &&& 0 <= p <= zero_width_table().len()
    &&& (p == 0 || zero_width_table()[p - 1].1 < lo)
    &&& (p == zero_width_table().len() || hi < zero_width_table()[p].0)
}

/// The first `n` blocks are placed by the matching entries of `covers` and
/// `gaps`.
spec fn blocks_placed(blocks: Seq<(u32, u32)>, covers: Seq<int>, gaps: Seq<int>, n: int) -> bool
    decreases n,
{
    if n <= 0 {
        true
    } else {
        block_placed(blocks[n - 1].0, blocks[n - 1].1, covers[n - 1], gaps[n - 1]) && blocks_placed(
            blocks,
            covers,
            gaps,
            n - 1,
        )
    }
}

proof fn lemma_sorted_ranges_apart(table: Seq<(u32, u32)>, n: int)
    requires
        sorted_ranges(table, n),
        n <= table.len(),
    ensures
        forall|i: int| 0 <= i < n ==> #[trigger] table[i].0 <= table[i].1,
        forall|i: int, j: int| 0 <= i < j < n ==> #[trigger] table[i].1 < #[trigger] table[j].0,
    decreases n,
{
    if n > 0 {
        lemma_sorted_ranges_apart(table, n - 1);
    }
}

proof fn lemma_blocks_placed(blocks: Seq<(u32, u32)>, covers: Seq<int>, gaps: Seq<int>, n: int, k: int)
    requires
        blocks_placed(blocks, covers, gaps, n),
        0 <= k < n,
    ensures
        block_placed(blocks[k].0, blocks[k].1, covers[k], gaps[k]),
    decreases n,
{
    if k < n - 1 {
        lemma_blocks_placed(blocks, covers, gaps, n - 1, k);
    }
}

proof fn lemma_zero_width_sorted()
    ensures
        sorted_ranges(zero_width_table(), zero_width_table().len() as int),
{
    assert(sorted_ranges(zero_width_table(), 40)) by {
        reveal_with_fuel(sorted_ranges, 41);
    }
    assert(sorted_ranges(zero_width_table(), 80)) by {
        reveal_with_fuel(sorted_ranges, 41);
    }
    assert(sorted_ranges(zero_width_table(), 120)) by {
        reveal_with_fuel(sorted_ranges, 41);
    }
    assert(sorted_ranges(zero_width_table(), 160)) by {
        reveal_with_fuel(sorted_ranges, 41);
    }
    assert(sorted_ranges(zero_width_table(), 200)) by {
        reveal_with_fuel(sorted_ranges, 41);
    }
    assert(sorted_ranges(zero_width_table(), 216)) by {
        reveal_with_fuel(sorted_ranges, 41);
    }
}

/// Under UTF-8 every code point of the East Asian wide and fullwidth
/// blocks is two terminal columns wide, the noncharacters (whose low
/// sixteen bits are FFFE or FFFF) apart.
pub proof fn law_east_asian_wide_is_two_columns(c: u32, k: int)
    requires
        0 <= k < east_asian_wide_blocks().len(),
        east_asian_wide_blocks()[k].0 <= c <= east_asian_wide_blocks()[k].1,
        (c & 0xFFFEu32) != 0xFFFEu32,
    ensures
        wcwidth_spec(Charset::Utf8, c) == 2,
{
    let blocks = east_asian_wide_blocks();
    let covers: Seq<int> = seq![
        0, 1, 2, 3, 4, 5, 6, 7, 8, 9, 10, 11, 12, 13, 14, 15,
        16, 17, 18, 19, 20, 21, 22, 23, 24, 25, 26, 27, 28, 29, 30, 31,
        32, 33, 34, 35, 35, 36, 36, 37, 38, 39, 40, 41, 42, 43, 44, 45,
        46, 47, 48, 49, 50, 51, 52, 53, 54, 55, 56, 57, 58, 59, 60, 61,
        62, 63,
    ];
    let gaps: Seq<int> = seq![
        106, 154, 154, 154, 154, 154, 154, 154, 154, 154, 154, 154, 154, 154, 154, 154,
        154, 154, 154, 154, 154, 154, 154, 154, 154, 154, 154, 154, 154, 154, 154, 154,
        154, 154, 154, 157, 158, 158, 159, 159, 159, 159, 171, 190, 190, 192, 193, 194,
        194, 207, 207, 207, 207, 213, 213, 213, 213, 213, 213, 213, 213, 213, 213, 213,
        213, 213,
    ];
    assert(blocks_placed(blocks, covers, gaps, 33)) by {
        reveal_with_fuel(blocks_placed, 34);
    }
    assert(blocks_placed(blocks, covers, gaps, 66)) by {
        reveal_with_fuel(blocks_placed, 34);
    }
    lemma_blocks_placed(blocks, covers, gaps, 66, k);
    let lo = blocks[k].0;
    let hi = blocks[k].1;
    let j = covers[k];
    let p = gaps[k];
    let zero = zero_width_table();
    assert(wide_table()[j].0 <= c && c <= wide_table()[j].1);
    assert(in_table(wide_table(), c));
    lemma_zero_width_sorted();
    lemma_sorted_ranges_apart(zero, zero.len() as int);
    assert forall|i: int| 0 <= i < zero.len() implies !(#[trigger] zero[i].0 <= c && c <= zero[i].1) by {
        if i < p {
            if i < p - 1 {
                assert(zero[i].1 < zero[p - 1].0);
                assert(zero[p - 1].0 <= zero[p - 1].1);
            }
        } else {
            if i > p {
                assert(zero[p].1 < zero[i].0);
                assert(zero[p].0 <= zero[p].1);
            }
        }
    }
    assert(!in_table(zero_width_table(), c));
    assert(iswprint_spec(Charset::Utf8, c));
}

/// The index of the first `stop` in `s`, or its length when there is none.
pub open spec fn first_index(s: Seq<char>, stop: char) -> nat
    decreases s.len(),
{
    if s.len() == 0 {
        0
    } else if s[0] == stop {
        0
    } else {
        1 + first_index(s.drop_first(), stop)
    }
}

proof fn lemma_first_index(s: Seq<char>, stop: char, i: int)
    requires
        0 <= i <= s.len(),
        forall|j: int| 0 <= j < i ==> s[j] != stop,
        i == s.len() || s[i] == stop,
    ensures
        first_index(s, stop) == i,
    decreases s.len(),
{
    if s.len() == 0 {
    } else if s[0] == stop {
    } else {
        assert forall|j: int| 0 <= j < i - 1 implies s.drop_first()[j] != stop by {
            assert(s[j + 1] != stop);
        }
        lemma_first_index(s.drop_first(), stop, i - 1);
    }
}

/// Whether `c` is an ASCII letter or digit.
pub open spec fn is_ascii_alnum(c: char) -> bool {
    ('0' <= c <= '9') || ('a' <= c <= 'z') || ('A' <= c <= 'Z')
}

/// `c` with an ASCII capital made small.
pub open spec fn ascii_lower(c: char) -> char {
    if 'A' <= c <= 'Z' {
        ((c as u32) + 32) as char
    } else {
        c
    }
}

/// The ASCII letters and digits of `s`, made small.
pub open spec fn normalised(s: Seq<char>) -> Seq<char>
    decreases s.len(),
{
    if s.len() == 0 {
        s
    } else {
        let init = normalised(s.drop_last());
        if is_ascii_alnum(s.last()) {
            init.push(ascii_lower(s.last()))
        } else {
            init
        }
    }
}

/// The codeset of a locale name `language[_territory][.codeset][@modifier]`.
pub open spec fn codeset_of(name: Seq<char>) -> Seq<char> {
    let base = name.subrange(0, first_index(name, '@') as int);
    let dot = first_index(base, '.');
    if dot < base.len() {
        base.subrange(dot + 1int, base.len() as int)
    } else {
        Seq::empty()
    }
}

/// The character set a locale name selects: UTF-8 when its codeset spells
/// `utf8` ignoring case and punctuation, the C locale otherwise.
pub open spec fn charset_of_spec(name: Seq<char>) -> Charset {
    if normalised(codeset_of(name)) == seq!['u', 't', 'f', '8'] {
        Charset::Utf8
    } else {
        Charset::Ascii
    }
}

fn first_index_exec(s: &[char], stop: char) -> (i: usize)
    ensures
        i == first_index(s@, stop),
        i <= s@.len(),
{
    let mut i: usize = 0;
    while i < s.len() && s[i] != stop
        invariant
            i <= s@.len(),
            forall|j: int| 0 <= j < i ==> s@[j] != stop,
        decreases s@.len() - i,
    {
        i = i + 1;
    }
    proof {
        lemma_first_index(s@, stop, i as int);
    }
    i
}

/// The character set named by a locale name.
pub fn charset_of(name: &str) -> (cs: Charset)
    ensures
        cs == charset_of_spec(name@),
{
    let characters = crate::domain::text::str_chars(name);
    let all = characters.as_slice();
    let at = first_index_exec(all, '@');
    let base = vstd::slice::slice_subrange(all, 0, at);
    let dot = first_index_exec(base, '.');
    let start = if dot < base.len() {
        dot + 1
    } else {
        base.len()
    };
    let codeset = vstd::slice::slice_subrange(base, start, base.len());
    proof {
        if dot >= base@.len() {
            assert(codeset@ =~= Seq::<char>::empty());
        }
    }
    let mut normal: Vec<char> = Vec::new();
    let mut i: usize = 0;
    while i < codeset.len()
        invariant
            i <= codeset@.len(),
            normal@ == normalised(codeset@.subrange(0, i as int)),
        decreases codeset@.len() - i,
    {
        let c = codeset[i];
        if ('0' <= c && c <= '9') || ('a' <= c && c <= 'z') {
            normal.push(c);
        } else if 'A' <= c && c <= 'Z' {
            let lower = ((c as u32) + 32) as u8;
            normal.push(lower as char);
        }
        proof {
            assert(codeset@.subrange(0, i + 1).drop_last() =~= codeset@.subrange(0, i as int));
        }
        i = i + 1;
    }
    proof {
        assert(codeset@.subrange(0, codeset@.len() as int) =~= codeset@);
    }
    if normal.len() == 4 && normal[0] == 'u' && normal[1] == 't' && normal[2] == 'f' && normal[3] == '8' {
        proof {
            assert(normal@ =~= seq!['u', 't', 'f', '8']);
        }
        Charset::Utf8
    } else {
        Charset::Ascii
    }
}

/// The display class of `c` in `cs`. Tab and newline are told apart before
/// the control test, and only the first 256 code points can be controls.
pub open spec fn chr_class_spec(cs: Charset, c: u32) -> i32 {
    if c == 0x09 {
        CHTYPE_TAB
    } else if c == 0x0A {
        CHTYPE_NL
    } else if c < 0x100 && iswcntrl_spec(cs, c) {
        CHTYPE_ASCIICTL
    } else if iswprint_spec(cs, c) {
        CHTYPE_PRINT
    } else {
        CHTYPE_NONPRINT
    }
}

/// The display class of `c`.
pub fn ct_chr_class(cs: Charset, c: u32) -> (class: i32)
    ensures
        class == chr_class_spec(cs, c),
{
    if c == 0x09 {
        CHTYPE_TAB
    } else if c == 0x0A {
        CHTYPE_NL
    } else if c < 0x100 && iswcntrl(cs, c) {
        CHTYPE_ASCIICTL
    } else if iswprint(cs, c) {
        CHTYPE_PRINT
    } else {
        CHTYPE_NONPRINT
    }
}

/// Terminal columns `c` takes when shown. Tab and newline report 1 and 0,
/// although their caret forms take two cells.
pub open spec fn visual_width_spec(cs: Charset, c: u32) -> i32 {
    let class = chr_class_spec(cs, c);
    if class == CHTYPE_ASCIICTL {
        2i32
    } else if class == CHTYPE_TAB {
        1i32
    } else if class == CHTYPE_NL {
        0i32
    } else if class == CHTYPE_PRINT {
        wcwidth_spec(cs, c)
    } else if c > 0xffff {
        8i32
    } else {
        7i32
    }
}

/// Terminal columns `c` takes when shown.
pub fn ct_visual_width(cs: Charset, c: u32) -> (width: i32)
    ensures
        width == visual_width_spec(cs, c),
{
    let class = ct_chr_class(cs, c);
    if class == CHTYPE_ASCIICTL {
        2
    } else if class == CHTYPE_TAB {
        1
    } else if class == CHTYPE_NL {
        0
    } else if class == CHTYPE_PRINT {
        wcwidth(cs, c)
    } else if c > 0xffff {
        8
    } else {
        7
    }
}

/// The upper-case hexadecimal digit of the four bits of `c` at `shift`.
pub open spec fn hex_digit(c: u32, shift: u32) -> u32 {
    let v = (c >> shift) & 0xFu32;
    if v < 10 {
        (0x30 + v) as u32
    } else {
        (0x41 + v - 10) as u32
    }
}

/// What `c` is shown as: a caret form for controls, itself when printable,
/// and `\U+` with four or five hexadecimal digits otherwise. Five digits are
/// the most shown, so the bits above them are lost.
pub open spec fn visual_form(cs: Charset, c: u32) -> Seq<u32> {
    let class = chr_class_spec(cs, c);
    if class == CHTYPE_TAB || class == CHTYPE_NL || class == CHTYPE_ASCIICTL {
        seq![0x5Eu32, if c == 0x7F { 0x3Fu32 } else { c | 0x40u32 }]
    } else if class == CHTYPE_PRINT {
        seq![c]
    } else if c > 0xffff {
        seq![
            0x5Cu32,
            0x55u32,
            0x2Bu32,
            hex_digit(c, 16),
            hex_digit(c, 12),
            hex_digit(c, 8),
            hex_digit(c, 4),
            hex_digit(c, 0),
        ]
    } else {
        seq![0x5Cu32, 0x55u32, 0x2Bu32, hex_digit(c, 12), hex_digit(c, 8), hex_digit(c, 4), hex_digit(c, 0)]
    }
}

fn hex_digit_exec(c: u32, shift: u32) -> (digit: u32)
    requires
        shift < 32,
    ensures
        digit == hex_digit(c, shift),
{
    let v = (c >> shift) & 0xFu32;
    assert(v <= 0xF) by (bit_vector)
        requires
            v == (c >> shift) & 0xFu32,
    ;
    if v < 10 {
        0x30 + v
    } else {
        0x41 + v - 10
    }
}

/// Write what `c` is shown as at the start of `dst`. Returns the cells
/// written, or -1 with nothing written when `dst` is too short.
pub fn ct_visual_char(cs: Charset, dst: &mut [u32], c: u32) -> (written: isize)
    ensures
        visual_form(cs, c).len() <= old(dst)@.len() ==> written == visual_form(cs, c).len() && final(dst)@
            == visual_form(cs, c) + old(dst)@.subrange(visual_form(cs, c).len() as int, old(dst)@.len() as int),
        visual_form(cs, c).len() > old(dst)@.len() ==> written == -1 && final(dst)@ == old(dst)@,
{
    let ghost form = visual_form(cs, c);
    let class = ct_chr_class(cs, c);
    if class == CHTYPE_TAB || class == CHTYPE_NL || class == CHTYPE_ASCIICTL {
        if dst.len() < 2 {
            return -1;
        }
        dst[0] = 0x5E;
        dst[1] = if c == 0x7F {
            0x3F
        } else {
            c | 0x40u32
        };
        proof {
            assert(dst@ =~= form + old(dst)@.subrange(2, old(dst)@.len() as int));
        }
        2
    } else if class == CHTYPE_PRINT {
        if dst.len() < 1 {
            return -1;
        }
        dst[0] = c;
        proof {
            assert(dst@ =~= form + old(dst)@.subrange(1, old(dst)@.len() as int));
        }
        1
    } else {
        let width: usize = if c > 0xffff {
            8
        } else {
            7
        };
        if dst.len() < width {
            return -1;
        }
        dst[0] = 0x5C;
        dst[1] = 0x55;
        dst[2] = 0x2B;
        if c > 0xffff {
            dst[3] = hex_digit_exec(c, 16);
            dst[4] = hex_digit_exec(c, 12);
            dst[5] = hex_digit_exec(c, 8);
            dst[6] = hex_digit_exec(c, 4);
            dst[7] = hex_digit_exec(c, 0);
            proof {
                assert(dst@ =~= form + old(dst)@.subrange(8, old(dst)@.len() as int));
            }
            8
        } else {
            dst[3] = hex_digit_exec(c, 12);
            dst[4] = hex_digit_exec(c, 8);
            dst[5] = hex_digit_exec(c, 4);
            dst[6] = hex_digit_exec(c, 0);
            proof {
                assert(dst@ =~= form + old(dst)@.subrange(7, old(dst)@.len() as int));
            }
            7
        }
    }
}

/// The bytes `c` takes in `cs`, 0 when `cs` cannot represent it.
pub fn ct_enc_width(cs: Charset, c: u32) -> (width: usize)
    ensures
        width == (match enc_width_spec(cs, c) {
            Some(w) => w,
            None => 0usize,
        }),
{
    match enc_width(cs, c) {
        Some(w) => w,
        None => 0,
    }
}

/// Encode `c` at the start of `dst`. Returns the bytes written, 0 (nothing
/// written) when `cs` cannot represent `c`, and -1 when `dst` is empty or
/// too short.
pub fn ct_encode_char(cs: Charset, dst: &mut [u8], c: u32) -> (written: isize)
    ensures
        old(dst)@.len() == 0 ==> written == -1 && final(dst)@ == old(dst)@,
        old(dst)@.len() > 0 ==> match encoding(cs, c) {
            None => written == 0 && final(dst)@ == old(dst)@,
            Some(bytes) => if bytes.len() <= old(dst)@.len() {
                written == bytes.len() && final(dst)@ == bytes + old(dst)@.subrange(
                    bytes.len() as int,
                    old(dst)@.len() as int,
                )
            } else {
                written == -1 && final(dst)@ == old(dst)@
            },
        },
{
    if dst.len() == 0 {
        return -1;
    }
    if dst.len() < ct_enc_width(cs, c) {
        return -1;
    }
    match encode(cs, dst, c) {
        Some(n) => n as isize,
        None => 0,
    }
}

/// A conversion buffer: a byte half and a wide half, grown independently.
/// `csize` and `wsize` are the allocated element counts and always equal
/// the lengths of the halves.
pub struct CtBufferT {
    pub cbuff: Vec<u8>,
    pub csize: usize,
    pub wbuff: Vec<u32>,
    pub wsize: usize,
}

impl CtBufferT {
    /// The recorded sizes are the lengths of the halves.
    pub open spec fn wf(&self) -> bool {
        self.cbuff@.len() == self.csize && self.wbuff@.len() == self.wsize
    }

    /// An empty buffer.
    pub fn new() -> (conv: Self)
        ensures
            conv.wf(),
            conv.csize == 0,
            conv.wsize == 0,
    {
        CtBufferT { cbuff: Vec::new(), csize: 0, wbuff: Vec::new(), wsize: 0 }
    }
}

/// A mutable window of `len` elements of `buffer` starting at `start`.
fn window_mut<T>(buffer: &mut Vec<T>, start: usize, len: usize) -> (window: &mut [T])
    requires
        start + len <= old(buffer)@.len(),
    ensures
        window@ == old(buffer)@.subrange(start as int, start + len),
        final(buffer)@ == old(buffer)@.subrange(0, start as int) + final(window)@ + old(buffer)@.subrange(
            start + len,
            old(buffer)@.len() as int,
        ),
{
    let all = buffer.as_mut_slice();
    let (_, tail) = all.split_at_mut(start);
    let (window, _) = tail.split_at_mut(len);
    window
}

/// Grow the byte half to at least `csize` elements, zeroing the new ones.
/// Returns 0 on success and -1, leaving the half empty, when the allocation
/// fails. Never shrinks.
pub fn ct_conv_cbuff_resize(conv: &mut CtBufferT, csize: usize) -> (status: i32)
    requires
        old(conv).wf(),
    ensures
        final(conv).wf(),
        final(conv).wbuff@ == old(conv).wbuff@,
        final(conv).wsize == old(conv).wsize,
        csize <= old(conv).csize ==> status == 0 && final(conv).cbuff@ == old(conv).cbuff@ && final(conv).csize
            == old(conv).csize,
        csize > old(conv).csize ==> (status == 0 && final(conv).csize == csize && final(conv).cbuff@.subrange(
            0,
            old(conv).csize as int,
        ) == old(conv).cbuff@ && (forall|i: int| old(conv).csize <= i < csize ==> final(conv).cbuff@[i] == 0))
            || (status == -1 && final(conv).csize == 0),
{
    if csize <= conv.csize {
        return 0;
    }
    let additional = csize - conv.cbuff.len();
    match conv.cbuff.try_reserve(additional) {
        Err(_) => {
            conv.csize = 0;
            conv.cbuff = Vec::new();
            return -1;
        },
        Ok(()) => {},
    }
    conv.cbuff.resize(csize, 0u8);
    conv.csize = csize;
    0
}

/// Grow the wide half to at least `wsize` elements, zeroing the new ones.
/// Returns 0 on success and -1, leaving the half empty, when the allocation
/// fails. Never shrinks.
pub fn ct_conv_wbuff_resize(conv: &mut CtBufferT, wsize: usize) -> (status: i32)
    requires
        old(conv).wf(),
    ensures
        final(conv).wf(),
        final(conv).cbuff@ == old(conv).cbuff@,
        final(conv).csize == old(conv).csize,
        wsize <= old(conv).wsize ==> status == 0 && final(conv).wbuff@ == old(conv).wbuff@ && final(conv).wsize
            == old(conv).wsize,
        wsize > old(conv).wsize ==> (status == 0 && final(conv).wsize == wsize && final(conv).wbuff@.subrange(
            0,
            old(conv).wsize as int,
        ) == old(conv).wbuff@ && (forall|i: int| old(conv).wsize <= i < wsize ==> final(conv).wbuff@[i] == 0))
            || (status == -1 && final(conv).wsize == 0),
{
    if wsize <= conv.wsize {
        return 0;
    }
    let additional = wsize - conv.wbuff.len();
    match conv.wbuff.try_reserve(additional) {
        Err(_) => {
            conv.wsize = 0;
            conv.wbuff = Vec::new();
            return -1;
        },
        Ok(()) => {},
    }
    conv.wbuff.resize(wsize, 0u32);
    conv.wsize = wsize;
    0
}

/// The part of a wide string before its first zero.
pub open spec fn upto_nul_w(s: Seq<u32>) -> Seq<u32>
    decreases s.len(),
{
    if s.len() == 0 {
        s
    } else if s[0] == 0 {
        Seq::empty()
    } else {
        seq![s[0]] + upto_nul_w(s.drop_first())
    }
}

/// The part of a byte string before its first zero.
pub open spec fn upto_nul_b(s: Seq<u8>) -> Seq<u8>
    decreases s.len(),
{
    if s.len() == 0 {
        s
    } else if s[0] == 0 {
        Seq::empty()
    } else {
        seq![s[0]] + upto_nul_b(s.drop_first())
    }
}

proof fn lemma_upto_nul_w(s: Seq<u32>, i: int)
    requires
        0 <= i <= s.len(),
        forall|j: int| 0 <= j < i ==> s[j] != 0,
        i == s.len() || s[i] == 0,
    ensures
        upto_nul_w(s) == s.subrange(0, i),
    decreases s.len(),
{
    if s.len() == 0 {
    } else if s[0] == 0 {
        assert(s.subrange(0, i) =~= Seq::<u32>::empty());
    } else {
        assert forall|j: int| 0 <= j < i - 1 implies s.drop_first()[j] != 0 by {
            assert(s[j + 1] != 0);
        }
        lemma_upto_nul_w(s.drop_first(), i - 1);
        assert(seq![s[0]] + s.drop_first().subrange(0, i - 1) =~= s.subrange(0, i));
    }
}

proof fn lemma_upto_nul_b(s: Seq<u8>, i: int)
    requires
        0 <= i <= s.len(),
        forall|j: int| 0 <= j < i ==> s[j] != 0,
        i == s.len() || s[i] == 0,
    ensures
        upto_nul_b(s) == s.subrange(0, i),
    decreases s.len(),
{
    if s.len() == 0 {
    } else if s[0] == 0 {
        assert(s.subrange(0, i) =~= Seq::<u8>::empty());
    } else {
        assert forall|j: int| 0 <= j < i - 1 implies s.drop_first()[j] != 0 by {
            assert(s[j + 1] != 0);
        }
        lemma_upto_nul_b(s.drop_first(), i - 1);
        assert(seq![s[0]] + s.drop_first().subrange(0, i - 1) =~= s.subrange(0, i));
    }
}

/// A wide string up to its first zero, or all of it when it has none.
pub fn upto_nul_wide(s: &[u32]) -> (content: &[u32])
    ensures
        content@ == upto_nul_w(s@),
{
    let mut i: usize = 0;
    while i < s.len() && s[i] != 0
        invariant
            i <= s@.len(),
            forall|j: int| 0 <= j < i ==> s@[j] != 0,
        decreases s@.len() - i,
    {
        i = i + 1;
    }
    proof {
        lemma_upto_nul_w(s@, i as int);
    }
    vstd::slice::slice_subrange(s, 0, i)
}

/// A byte string up to its first zero, or all of it when it has none.
pub fn upto_nul_byte(s: &[u8]) -> (content: &[u8])
    ensures
        content@ == upto_nul_b(s@),
{
    let mut i: usize = 0;
    while i < s.len() && s[i] != 0
        invariant
            i <= s@.len(),
            forall|j: int| 0 <= j < i ==> s@[j] != 0,
        decreases s@.len() - i,
    {
        i = i + 1;
    }
    proof {
        lemma_upto_nul_b(s@, i as int);
    }
    vstd::slice::slice_subrange(s, 0, i)
}

/// The encodings of the characters of `w`, in order; a character that `cs`
/// cannot represent is left out.
pub open spec fn encode_all(cs: Charset, w: Seq<u32>) -> Seq<u8>
    decreases w.len(),
{
    if w.len() == 0 {
        Seq::empty()
    } else {
        encode_all(cs, w.drop_last()) + match encoding(cs, w.last()) {
            Some(bytes) => bytes,
            None => Seq::empty(),
        }
    }
}

proof fn lemma_encoding_short(cs: Charset, c: u32)
    ensures
        encoding(cs, c) matches Some(bytes) ==> 1 <= bytes.len() <= 4,
{
}

proof fn lemma_encode_all_prefix(cs: Charset, w: Seq<u32>, i: int)
    requires
        0 <= i <= w.len(),
    ensures
        encode_all(cs, w.subrange(0, i)).len() <= encode_all(cs, w).len(),
    decreases w.len() - i,
{
    if i < w.len() {
        lemma_encode_all_prefix(cs, w, i + 1);
        assert(w.subrange(0, i + 1).drop_last() =~= w.subrange(0, i));
    } else {
        assert(w.subrange(0, i) =~= w);
    }
}

/// Encode a wide string up to its first zero into the byte half, with a zero
/// after it. `None` for an absent string, or when the buffer cannot grow.
pub fn ct_encode_string<'a>(cs: Charset, s: Option<&[u32]>, conv: &'a mut CtBufferT) -> (result: Option<
    &'a [u8],
>)
    requires
        old(conv).wf(),
    ensures
        final(conv).wf(),
        final(conv).wbuff@ == old(conv).wbuff@,
        final(conv).wsize == old(conv).wsize,
        s is None ==> result is None && *final(conv) == *old(conv),
        s matches Some(w) && old(conv).csize >= encode_all(cs, upto_nul_w(w@)).len() + 5 ==> result is Some,
        s is Some && result is None ==> final(conv).csize == 0 || final(conv).csize > usize::MAX - CT_BUFSIZ,
        result matches Some(bytes) ==> {
            &&& s matches Some(w) && bytes@ == encode_all(cs, upto_nul_w(w@))
            &&& bytes@.len() < final(conv).cbuff@.len()
            &&& final(conv).cbuff@.subrange(0, bytes@.len() as int) == bytes@
            &&& final(conv).cbuff@[bytes@.len() as int] == 0
        },
{
    let text = match s {
        None => {
            return None;
        },
        Some(s) => upto_nul_wide(s),
    };
    let mut used: usize = 0;
    let mut i: usize = 0;
    let ghost roomy = old(conv).csize >= encode_all(cs, text@).len() + 5;
    proof {
        assert(conv.cbuff@.subrange(0, 0) =~= encode_all(cs, text@.subrange(0, 0)));
    }
    while i < text.len()
        invariant
            conv.wf(),
            conv.wbuff@ == old(conv).wbuff@,
            conv.wsize == old(conv).wsize,
            i <= text@.len(),
            used <= conv.csize,
            conv.cbuff@.subrange(0, used as int) == encode_all(cs, text@.subrange(0, i as int)),
            roomy == (old(conv).csize >= encode_all(cs, text@).len() + 5),
            roomy ==> conv.csize == old(conv).csize,
            s matches Some(w) && upto_nul_w(w@) == text@,
        decreases text@.len() - i,
    {
        proof {
            lemma_encode_all_prefix(cs, text@, i as int);
            assert(conv.cbuff@.subrange(0, used as int).len() == used);
        }
        if conv.csize - used < 5 {
            if conv.csize > usize::MAX - CT_BUFSIZ {
                return None;
            }
            let ghost before = conv.cbuff@;
            if ct_conv_cbuff_resize(conv, conv.csize + CT_BUFSIZ) == -1 {
                return None;
            }
            proof {
                assert(conv.cbuff@.subrange(0, used as int) =~= before.subrange(0, used as int));
            }
        }
        let ghost before = conv.cbuff@;
        let window = window_mut(&mut conv.cbuff, used, 5);
        let written = ct_encode_char(cs, window, text[i]);
        proof {
            lemma_encoding_short(cs, text@[i as int]);
            assert(text@.subrange(0, i + 1).drop_last() =~= text@.subrange(0, i as int));
        }
        if written == -1 {
            return None;
        }
        proof {
            let added = match encoding(cs, text@[i as int]) {
                Some(bytes) => bytes,
                None => Seq::empty(),
            };
            assert(conv.cbuff@.subrange(0, used + added.len()) =~= before.subrange(0, used as int) + added);
        }
        i = i + 1;
        used = used + written as usize;
    }
    proof {
        assert(text@.subrange(0, text@.len() as int) =~= text@);
    }
    if conv.csize - used < 5 {
        if conv.csize > usize::MAX - CT_BUFSIZ {
            return None;
        }
        let ghost before = conv.cbuff@;
        if ct_conv_cbuff_resize(conv, conv.csize + CT_BUFSIZ) == -1 {
            return None;
        }
        proof {
            assert(conv.cbuff@.subrange(0, used as int) =~= before.subrange(0, used as int));
        }
    }
    let ghost before = conv.cbuff@;
    conv.cbuff.set(used, 0);
    proof {
        assert(text@.subrange(0, text@.len() as int) =~= text@);
        assert(conv.cbuff@.subrange(0, used as int) =~= before.subrange(0, used as int));
    }
    Some(vstd::slice::slice_subrange(conv.cbuff.as_slice(), 0, used))
}

proof fn lemma_decoded_upto_enough(cs: Charset, s: Seq<u8>, limit: nat, w: Seq<u32>)
    requires
        decoded_upto(cs, s, s.len()) == Some(w),
        limit >= w.len(),
    ensures
        decoded_upto(cs, s, limit) == Some(w),
    decreases s.len(),
{
    if s.len() == 0 {
    } else {
        match decode_one_spec(cs, s) {
            None => {},
            Some((c, n)) => if n == 0 || n > s.len() {
            } else {
                let rest = s.subrange(n as int, s.len() as int);
                lemma_decoded_upto_more(cs, rest, (s.len() - 1) as nat);
                match decoded_upto(cs, rest, rest.len()) {
                    Some(r) => {
                        assert(w == seq![c] + r);
                        lemma_decoded_upto_enough(cs, rest, (limit - 1) as nat, r);
                    },
                    None => {},
                }
            },
        }
    }
}

/// Decode a byte string up to its first zero into the wide half, with a
/// zero after it. `None` for an absent string, for an invalid sequence
/// anywhere in it, or when the buffer cannot grow.
pub fn ct_decode_string<'a>(cs: Charset, s: Option<&[u8]>, conv: &'a mut CtBufferT) -> (result: Option<
    &'a [u32],
>)
    requires
        old(conv).wf(),
    ensures
        final(conv).wf(),
        final(conv).cbuff@ == old(conv).cbuff@,
        final(conv).csize == old(conv).csize,
        s is None ==> result is None && *final(conv) == *old(conv),
        s matches Some(bytes) && decoded(cs, upto_nul_b(bytes@)) is None ==> result is None,
        s matches Some(bytes) && decoded(cs, upto_nul_b(bytes@)) matches Some(w) && w.len() < usize::MAX - CT_BUFSIZ
            && old(conv).wsize > w.len() ==> result is Some,
        result is None && s is Some && decoded(cs, upto_nul_b(s->0@)) is Some ==> decoded(
            cs,
            upto_nul_b(s->0@),
        )->0.len() >= usize::MAX - CT_BUFSIZ || final(conv).wsize == 0,
        result matches Some(wide) ==> {
            &&& s matches Some(bytes) && decoded(cs, upto_nul_b(bytes@)) == Some(wide@)
            &&& wide@.len() < final(conv).wbuff@.len()
            &&& final(conv).wbuff@.subrange(0, wide@.len() as int) == wide@
            &&& final(conv).wbuff@[wide@.len() as int] == 0
        },
{
    let s = match s {
        None => {
            return None;
        },
        Some(s) => upto_nul_byte(s),
    };
    let total = s.len();
    let len = match mbstowcs_len(cs, s) {
        None => {
            return None;
        },
        Some(len) => len,
    };
    assert(s@.len() == total);
    if len >= usize::MAX - CT_BUFSIZ {
        return None;
    }
    let len = len + 1;
    if conv.wsize < len {
        if ct_conv_wbuff_resize(conv, len + CT_BUFSIZ) == -1 {
            return None;
        }
    }
    let ghost w = decoded(cs, s@).unwrap();
    proof {
        assert(decoded(cs, s@) is Some);
        assert(w.len() + 1 == len);
        assert(conv.wsize >= len);
        lemma_decoded_upto_enough(cs, s@, conv.wsize as nat, w);
    }
    let wsize = conv.wsize;
    let window = window_mut(&mut conv.wbuff, 0, wsize);
    let written = match mbstowcs(cs, window, s) {
        None => {
            return None;
        },
        Some(written) => written,
    };
    proof {
        assert(conv.wbuff@ =~= window@);
    }
    Some(vstd::slice::slice_subrange(conv.wbuff.as_slice(), 0, written))
}

/// What the characters of `w` are shown as, in order.
pub open spec fn visual_all(cs: Charset, w: Seq<u32>) -> Seq<u32>
    decreases w.len(),
{
    if w.len() == 0 {
        Seq::empty()
    } else {
        visual_all(cs, w.drop_last()) + visual_form(cs, w.last())
    }
}

proof fn lemma_visual_form_short(cs: Charset, c: u32)
    ensures
        1 <= visual_form(cs, c).len() <= VISUAL_WIDTH_MAX,
{
}

proof fn lemma_visual_all_prefix(cs: Charset, w: Seq<u32>, i: int)
    requires
        0 <= i <= w.len(),
    ensures
        visual_all(cs, w.subrange(0, i)).len() <= visual_all(cs, w).len(),
    decreases w.len() - i,
{
    if i < w.len() {
        lemma_visual_all_prefix(cs, w, i + 1);
        assert(w.subrange(0, i + 1).drop_last() =~= w.subrange(0, i));
    } else {
        assert(w.subrange(0, i) =~= w);
    }
}

/// Write what a wide string up to its first zero is shown as into the wide
/// half, with a zero after it. The half grows to at least `CT_BUFSIZ` and
/// then as often as an expansion does not fit. `None` for an absent string
/// or when the buffer cannot grow.
pub fn ct_visual_string<'a>(cs: Charset, s: Option<&[u32]>, conv: &'a mut CtBufferT) -> (result: Option<
    &'a [u32],
>)
    requires
        old(conv).wf(),
    ensures
        final(conv).wf(),
        final(conv).cbuff@ == old(conv).cbuff@,
        final(conv).csize == old(conv).csize,
        s is None ==> result is None && *final(conv) == *old(conv),
        result matches Some(shown) ==> {
            &&& s matches Some(w) && shown@ == visual_all(cs, upto_nul_w(w@))
            &&& shown@.len() < final(conv).wbuff@.len()
            &&& final(conv).wbuff@.subrange(0, shown@.len() as int) == shown@
            &&& final(conv).wbuff@[shown@.len() as int] == 0
            &&& final(conv).wsize >= CT_BUFSIZ
        },
        s matches Some(w) && old(conv).wsize >= CT_BUFSIZ && old(conv).wsize > visual_all(cs, upto_nul_w(w@)).len()
            ==> result is Some,
        s is Some && result is None ==> final(conv).wsize == 0 || final(conv).wsize > usize::MAX - CT_BUFSIZ,
{
    let text = match s {
        None => {
            return None;
        },
        Some(s) => upto_nul_wide(s),
    };
    if ct_conv_wbuff_resize(conv, CT_BUFSIZ) == -1 {
        return None;
    }
    let mut dst: usize = 0;
    let mut i: usize = 0;
    let ghost roomy = old(conv).wsize >= CT_BUFSIZ && old(conv).wsize > visual_all(cs, text@).len();
    proof {
        assert(conv.wbuff@.subrange(0, 0) =~= visual_all(cs, text@.subrange(0, 0)));
    }
    while i < text.len()
        invariant
            conv.wf(),
            conv.cbuff@ == old(conv).cbuff@,
            conv.csize == old(conv).csize,
            conv.wsize >= CT_BUFSIZ,
            i <= text@.len(),
            dst <= conv.wsize,
            conv.wbuff@.subrange(0, dst as int) == visual_all(cs, text@.subrange(0, i as int)),
            roomy == (old(conv).wsize >= CT_BUFSIZ && old(conv).wsize > visual_all(cs, text@).len()),
            roomy ==> conv.wsize == old(conv).wsize,
            s matches Some(w) && upto_nul_w(w@) == text@,
        decreases text@.len() - i, if conv.wsize - dst >= VISUAL_WIDTH_MAX { 0int } else { 1int },
    {
        let ghost before = conv.wbuff@;
        proof {
            lemma_visual_all_prefix(cs, text@, i + 1);
            assert(conv.wbuff@.subrange(0, dst as int).len() == dst);
            assert(text@.subrange(0, i + 1).drop_last() =~= text@.subrange(0, i as int));
        }
        let room = conv.wsize - dst;
        let window = window_mut(&mut conv.wbuff, dst, room);
        let used = ct_visual_char(cs, window, text[i]);
        proof {
            lemma_visual_form_short(cs, text@[i as int]);
            assert(text@.subrange(0, i + 1).drop_last() =~= text@.subrange(0, i as int));
        }
        if used > 0 {
            proof {
                let added = visual_form(cs, text@[i as int]);
                assert(conv.wbuff@.subrange(0, dst + added.len()) =~= before.subrange(0, dst as int) + added);
            }
            i = i + 1;
            dst = dst + used as usize;
        } else {
            proof {
                assert(conv.wbuff@ =~= before);
            }
            if conv.wsize > usize::MAX - CT_BUFSIZ {
                return None;
            }
            if ct_conv_wbuff_resize(conv, conv.wsize + CT_BUFSIZ) == -1 {
                return None;
            }
            proof {
                assert(conv.wbuff@.subrange(0, dst as int) =~= before.subrange(0, dst as int));
            }
        }
    }
    proof {
        assert(text@.subrange(0, text@.len() as int) =~= text@);
        assert(conv.wbuff@.subrange(0, dst as int).len() == dst);
    }
    if dst >= conv.wsize {
        if conv.wsize > usize::MAX - CT_BUFSIZ {
            return None;
        }
        let ghost before = conv.wbuff@;
        if ct_conv_wbuff_resize(conv, conv.wsize + CT_BUFSIZ) == -1 {
            return None;
        }
        proof {
            assert(conv.wbuff@.subrange(0, dst as int) =~= before.subrange(0, dst as int));
        }
    }
    let ghost before = conv.wbuff@;
    conv.wbuff.set(dst, 0);
    proof {
        assert(text@.subrange(0, text@.len() as int) =~= text@);
        assert(conv.wbuff@.subrange(0, dst as int) =~= before.subrange(0, dst as int));
    }
    Some(vstd::slice::slice_subrange(conv.wbuff.as_slice(), 0, dst))
}

/// The wide cells one argument takes when packed: its characters and a
/// zero, none for an absent argument.
pub open spec fn slot_len(cs: Charset, a: Option<&[u8]>) -> nat {
    match a {
        None => 0,
        Some(b) => match decoded(cs, upto_nul_b(b@)) {
            Some(w) => w.len() + 1,
            None => 0,
        },
    }
}

/// Where the argument at `k` starts when the arguments before it are packed
/// end to end.
pub open spec fn slot_offset(cs: Charset, argv: Seq<Option<&[u8]>>, k: int) -> nat
    decreases k,
{
    if k <= 0 {
        0
    } else {
        slot_offset(cs, argv, k - 1) + slot_len(cs, argv[k - 1])
    }
}

/// Whether a present argument holds an invalid sequence.
pub open spec fn undecodable(cs: Charset, a: Option<&[u8]>) -> bool {
    match a {
        None => false,
        Some(b) => decoded(cs, upto_nul_b(b@)) is None,
    }
}

/// The bytes of an argument up to its first zero, and one for the zero.
pub open spec fn slot_bytes(a: Option<&[u8]>) -> nat {
    match a {
        None => 0,
        Some(b) => upto_nul_b(b@).len() + 1,
    }
}

/// The bytes of the first `k` arguments.
pub open spec fn bytes_upto(argv: Seq<Option<&[u8]>>, k: int) -> nat
    decreases k,
{
    if k <= 0 {
        0
    } else {
        bytes_upto(argv, k - 1) + slot_bytes(argv[k - 1])
    }
}

/// Whether argument `k` sits decoded and zero-terminated at its slot.
pub open spec fn slot_holds(cs: Charset, argv: Seq<Option<&[u8]>>, wbuff: Seq<u32>, k: int, slot: Option<usize>) -> bool {
    match argv[k] {
        None => slot is None,
        Some(b) => match decoded(cs, upto_nul_b(b@)) {
            None => false,
            Some(w) => {
                let off = slot_offset(cs, argv, k) as int;
                &&& slot == Some(off as usize)
                &&& off + w.len() < wbuff.len()
                &&& wbuff.subrange(off, off + w.len()) == w
                &&& wbuff[off + w.len()] == 0
            },
        },
    }
}

proof fn lemma_slot_offset_monotone(cs: Charset, argv: Seq<Option<&[u8]>>, j: int, k: int)
    requires
        0 <= j <= k,
    ensures
        slot_offset(cs, argv, j) + (if j < k { slot_len(cs, argv[j]) } else { 0 }) <= slot_offset(cs, argv, k),
    decreases k - j,
{
    if j < k {
        lemma_slot_offset_monotone(cs, argv, j + 1, k);
    }
}

/// Decode each present argument into the wide half, which has room for
/// `bufspace`: one cell more than the bytes of all arguments with a zero
/// after each. The result, appended to the empty `slots`, has one slot per
/// argument; it is `None` exactly when an argument holds an invalid
/// sequence.
pub fn decode_argv_into(
    cs: Charset,
    argv: &[Option<&[u8]>],
    conv: &mut CtBufferT,
    slots: Vec<Option<usize>>,
    bufspace: usize,
) -> (result: Option<Vec<Option<usize>>>)
    requires
        old(conv).wf(),
        slots@.len() == 0,
        bufspace == 1 + bytes_upto(argv@, argv@.len() as int),
        old(conv).wsize >= bufspace,
    ensures
        final(conv).wf(),
        final(conv).cbuff@ == old(conv).cbuff@,
        final(conv).csize == old(conv).csize,
        result is Some <==> forall|k: int| 0 <= k < argv@.len() ==> !undecodable(cs, #[trigger] argv@[k]),
        result matches Some(filled) ==> filled@.len() == argv@.len() && forall|k: int|
            0 <= k < argv@.len() ==> slot_holds(cs, argv@, final(conv).wbuff@, k, #[trigger] filled@[k]),
{
    let mut slots = slots;
    let mut bufspace = bufspace;
    let ghost total = bytes_upto(argv@, argv@.len() as int);
    let mut p: usize = 0;
    let mut k: usize = 0;
    while k < argv.len()
        invariant
            conv.wf(),
            conv.cbuff@ == old(conv).cbuff@,
            conv.csize == old(conv).csize,
            k <= argv@.len(),
            slots@.len() == k,
            p == slot_offset(cs, argv@, k as int),
            p + bufspace <= conv.wsize,
            bufspace >= 1 + total - bytes_upto(argv@, k as int),
            bytes_upto(argv@, k as int) <= total,
            total == bytes_upto(argv@, argv@.len() as int),
            forall|j: int| 0 <= j < k ==> slot_holds(cs, argv@, conv.wbuff@, j, #[trigger] slots@[j]),
            forall|j: int| 0 <= j < k ==> !undecodable(cs, #[trigger] argv@[j]),
        decreases argv@.len() - k,
    {
        proof {
            lemma_bytes_upto_monotone(argv@, k + 1, argv@.len() as int);
        }
        match argv[k] {
            None => {
                slots.push(None);
            },
            Some(bytes) => {
                let content = upto_nul_byte(bytes);
                let ghost before = conv.wbuff@;
                let window = window_mut(&mut conv.wbuff, p, bufspace);
                let decoded_count = mbstowcs(cs, window, content);
                let n = match decoded_count {
                    None => {
                        proof {
                            lemma_decoded_none(cs, content@, bufspace as nat);
                            assert(undecodable(cs, argv@[k as int]));
                        }
                        return None;
                    },
                    Some(n) => n,
                };
                proof {
                    lemma_decoded_some(cs, content@, bufspace as nat);
                    let w = decoded(cs, content@).unwrap();
                    lemma_decoded_len(cs, content@, content@.len());
                    lemma_decoded_upto_enough(cs, content@, bufspace as nat, w);
                    assert(n == w.len());
                    assert forall|j: int| 0 <= j < k implies slot_holds(cs, argv@, conv.wbuff@, j, #[trigger] slots@[j]) by {
                        assert(slot_holds(cs, argv@, before, j, slots@[j]));
                        lemma_slot_offset_monotone(cs, argv@, j, k as int);
                        match argv@[j] {
                            None => {},
                            Some(b) => {
                                let wj = decoded(cs, upto_nul_b(b@)).unwrap();
                                let off = slot_offset(cs, argv@, j) as int;
                                assert(conv.wbuff@.subrange(off, off + wj.len()) =~= before.subrange(off, off + wj.len()));
                                assert(conv.wbuff@[off + wj.len()] == before[off + wj.len()]);
                            },
                        }
                    }
                    assert(conv.wbuff@.subrange(p as int, p + w.len()) =~= window@.subrange(0, w.len() as int));
                    assert(conv.wbuff@[p + w.len()] == window@[w.len() as int]);
                }
                slots.push(Some(p));
                let used = n + 1;
                bufspace = bufspace - used;
                p = p + used;
            },
        }
        proof {
            assert(slots@[k as int] == slots@.last());
        }
        k = k + 1;
    }
    Some(slots)
}

/// Decode each present argument into the wide half, packed end to end with
/// a zero after each. The result has one slot per argument: the start of
/// its characters, or `None` where the argument is absent. `None` when an
/// argument holds an invalid sequence or the buffer cannot grow.
#[verifier::spinoff_prover]
#[verifier::rlimit(40)]
pub fn ct_decode_argv(cs: Charset, argv: &[Option<&[u8]>], conv: &mut CtBufferT) -> (result: Option<
    Vec<Option<usize>>,
>)
    requires
        old(conv).wf(),
    ensures
        final(conv).wf(),
        final(conv).cbuff@ == old(conv).cbuff@,
        final(conv).csize == old(conv).csize,
        (exists|k: int| 0 <= k < argv@.len() && undecodable(cs, #[trigger] argv@[k])) ==> result is None,
        result matches Some(slots) ==> slots@.len() == argv@.len() && forall|k: int|
            0 <= k < argv@.len() ==> slot_holds(cs, argv@, final(conv).wbuff@, k, #[trigger] slots@[k]),
{
    let mut bufspace: usize = 1;
    let mut i: usize = 0;
    while i < argv.len()
        invariant
            conv.wf(),
            conv.cbuff@ == old(conv).cbuff@,
            conv.csize == old(conv).csize,
            i <= argv@.len(),
            bufspace == 1 + bytes_upto(argv@, i as int),
        decreases argv@.len() - i,
    {
        match argv[i] {
            None => {},
            Some(bytes) => {
                let content = upto_nul_byte(bytes);
                let add = content.len();
                if add >= usize::MAX - bufspace {
                    return None;
                }
                bufspace = bufspace + add + 1;
            },
        }
        i = i + 1;
    }
    if conv.wsize < bufspace {
        if bufspace > usize::MAX - CT_BUFSIZ {
            return None;
        }
        if ct_conv_wbuff_resize(conv, bufspace + CT_BUFSIZ) == -1 {
            return None;
        }
    }
    let mut slots: Vec<Option<usize>> = Vec::new();
    match slots.try_reserve(argv.len()) {
        Err(_) => {
            return None;
        },
        Ok(()) => {},
    }
    decode_argv_into(cs, argv, conv, slots, bufspace)
}

proof fn lemma_bytes_upto_monotone(argv: Seq<Option<&[u8]>>, j: int, k: int)
    requires
        j <= k,
    ensures
        bytes_upto(argv, j) <= bytes_upto(argv, k),
    decreases k - j,
{
    if j < k {
        lemma_bytes_upto_monotone(argv, j, k - 1);
    }
}

proof fn lemma_decoded_none(cs: Charset, s: Seq<u8>, limit: nat)
    requires
        limit > s.len(),
        decoded_upto(cs, s, limit) is None,
    ensures
        decoded(cs, s) is None,
{
    lemma_decoded_upto_more(cs, s, limit);
}

proof fn lemma_decoded_some(cs: Charset, s: Seq<u8>, limit: nat)
    requires
        limit > s.len(),
        decoded_upto(cs, s, limit) is Some,
    ensures
        decoded(cs, s) is Some,
{
    lemma_decoded_upto_more(cs, s, limit);
}

/// Decoding the encoding of a character gives back the character and the
/// length of its encoding.
pub proof fn law_decode_inverts_encode(cs: Charset, c: u32)
    ensures
        encoding(cs, c) matches Some(bytes) ==> decode_one_spec(cs, bytes) == Some((c, bytes.len() as usize)),
{
    reveal_with_fuel(continued, 4);
    match enc_width_spec(cs, c) {
        None => {},
        Some(w) => {
            let b = encoded_bytes(c, w);
            if w == 1 {
                let b0 = c as u8;
                assert(b0 < 0x80 && b0 as u32 == c) by (bit_vector)
                    requires
                        c < 0x80,
                        b0 == c as u8,
                ;
                assert(b[0] == b0);
            } else if w == 2 {
                let b0 = (0xC0u32 | (c >> 6u32)) as u8;
                let b1 = (0x80u32 | (c & 0x3Fu32)) as u8;
                assert(0xC2 <= b0 <= 0xDF && b1 & 0xC0u8 == 0x80u8 && ((((b0 & 0x1Fu8) as u32) << 6u32) | ((b1
                    & 0x3Fu8) as u32)) == c) by (bit_vector)
                    requires
                        0x80 <= c <= 0x7FF,
                        b0 == (0xC0u32 | (c >> 6u32)) as u8,
                        b1 == (0x80u32 | (c & 0x3Fu32)) as u8,
                ;
                assert(b[0] == b0 && b[1] == b1);
                assert(continuations(b, 2));
            } else if w == 3 {
                let b0 = (0xE0u32 | (c >> 12u32)) as u8;
                let b1 = (0x80u32 | ((c >> 6u32) & 0x3Fu32)) as u8;
                let b2 = (0x80u32 | (c & 0x3Fu32)) as u8;
                assert(0xE0 <= b0 <= 0xEF && b1 & 0xC0u8 == 0x80u8 && b2 & 0xC0u8 == 0x80u8 && ((((((b0
                    & 0x0Fu8) as u32) << 6u32) | ((b1 & 0x3Fu8) as u32)) << 6u32) | ((b2 & 0x3Fu8) as u32)) == c)
                    by (bit_vector)
                    requires
                        0x800 <= c <= 0xFFFF,
                        b0 == (0xE0u32 | (c >> 12u32)) as u8,
                        b1 == (0x80u32 | ((c >> 6u32) & 0x3Fu32)) as u8,
                        b2 == (0x80u32 | (c & 0x3Fu32)) as u8,
                ;
                assert(b[0] == b0 && b[1] == b1 && b[2] == b2);
                assert(continuations(b, 3));
            } else {
                let b0 = (0xF0u32 | (c >> 18u32)) as u8;
                let b1 = (0x80u32 | ((c >> 12u32) & 0x3Fu32)) as u8;
                let b2 = (0x80u32 | ((c >> 6u32) & 0x3Fu32)) as u8;
                let b3 = (0x80u32 | (c & 0x3Fu32)) as u8;
                assert(0xF0 <= b0 <= 0xF4 && b1 & 0xC0u8 == 0x80u8 && b2 & 0xC0u8 == 0x80u8 && b3 & 0xC0u8
                    == 0x80u8 && ((((((((b0 & 0x07u8) as u32) << 6u32) | ((b1 & 0x3Fu8) as u32)) << 6u32) | ((b2
                    & 0x3Fu8) as u32)) << 6u32) | ((b3 & 0x3Fu8) as u32)) == c) by (bit_vector)
                    requires
                        0x10000 <= c <= 0x10FFFF,
                        b0 == (0xF0u32 | (c >> 18u32)) as u8,
                        b1 == (0x80u32 | ((c >> 12u32) & 0x3Fu32)) as u8,
                        b2 == (0x80u32 | ((c >> 6u32) & 0x3Fu32)) as u8,
                        b3 == (0x80u32 | (c & 0x3Fu32)) as u8,
                ;
                assert(b[0] == b0 && b[1] == b1 && b[2] == b2 && b[3] == b3);
                assert(continuations(b, 4));
            }
        },
    }
}

} // verus!
