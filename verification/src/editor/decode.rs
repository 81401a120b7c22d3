//! Decoding terminal input bytes into logical units: each complete UTF-8
//! sequence becomes a scalar, each byte that cannot begin or continue one a
//! raw byte, and a sequence cut off at the end of the input waits for the
//! next bytes, or becomes raw bytes when the input is finished.

use vstd::prelude::*;

use std::collections::VecDeque;

use crate::chartype::{continuations, continued, decode_one, decode_one_spec, finished, Charset};
use crate::domain::text::char_from_u32;
use crate::domain::TextUnit;

verus! {

/// Whether `b1` may follow the lead byte `b0` in a UTF-8 sequence: the
/// lead bytes E0, ED, F0 and F4 narrow the range so that overlong forms,
/// surrogates and values above U+10FFFF cannot be begun.
pub open spec fn second_ok(b0: u8, b1: u8) -> bool {
    if b0 == 0xE0 {
        0xA0 <= b1 <= 0xBF
    } else if b0 == 0xED {
        0x80 <= b1 <= 0x9F
    } else if b0 == 0xF0 {
        0x90 <= b1 <= 0xBF
    } else if b0 == 0xF4 {
        0x80 <= b1 <= 0x8F
    } else {
        0x80 <= b1 <= 0xBF
    }
}

/// The length of the sequence a lead byte begins; 0 for a byte that begins
/// none of more than one byte.
pub open spec fn sequence_len(b0: u8) -> nat {
    if 0xC2 <= b0 <= 0xDF {
        2
    } else if 0xE0 <= b0 <= 0xEF {
        3
    } else if 0xF0 <= b0 <= 0xF4 {
        4
    } else {
        0
    }
}

/// Whether `p` is the start of a valid UTF-8 sequence cut off before its
/// end.
pub open spec fn incomplete(p: Seq<u8>) -> bool {
    &&& p.len() >= 1
    &&& sequence_len(p[0]) > 0
    &&& p.len() < sequence_len(p[0])
    &&& (p.len() >= 2 ==> second_ok(p[0], p[1]))
    &&& forall|j: int| 2 <= j < p.len() ==> 0x80 <= #[trigger] p[j] <= 0xBF
}

/// The units `p` decodes to and the bytes left waiting: a complete
/// sequence gives its scalar, a cut-off sequence at the end waits (or
/// becomes raw bytes when the input is `finished`), and any other byte
/// becomes a raw byte on its own.
pub open spec fn decode_spec(p: Seq<u8>, finished: bool) -> (Seq<TextUnit>, Seq<u8>)
    decreases p.len(),
{
    if p.len() == 0 {
        (Seq::empty(), Seq::empty())
    } else {
        match decode_one_spec(Charset::Utf8, p) {
            Some((value, n)) => if 1 <= n <= p.len() {
                let rest = decode_spec(p.subrange(n as int, p.len() as int), finished);
                (seq![TextUnit::Scalar(value as char)] + rest.0, rest.1)
            } else {
                (Seq::empty(), p)
            },
            None => if incomplete(p) {
                if finished {
                    (p.map_values(|b: u8| TextUnit::RawByte(b)), Seq::empty())
                } else {
                    (Seq::empty(), p)
                }
            } else {
                let rest = decode_spec(p.drop_first(), finished);
                (seq![TextUnit::RawByte(p[0])] + rest.0, rest.1)
            },
        }
    }
}

/// Input bytes waiting to complete a sequence, and units decoded but not
/// yet taken.
pub struct Decoder {
    pending: Vec<u8>,
    ready: VecDeque<TextUnit>,
}

/// A decoder by value.
pub ghost struct DecoderView {
    pub pending: Seq<u8>,
    pub ready: Seq<TextUnit>,
}

impl View for Decoder {
    type V = DecoderView;

    closed spec fn view(&self) -> DecoderView {
        DecoderView { pending: self.pending@, ready: self.ready@ }
    }
}

impl Default for Decoder {
    fn default() -> (decoder: Self)
        ensures
            decoder@.pending == Seq::<u8>::empty(),
            decoder@.ready == Seq::<TextUnit>::empty(),
    {
        Decoder::new()
    }
}

fn incomplete_exec(p: &[u8]) -> (cut: bool)
    ensures
        cut == incomplete(p@),
{
    let n = p.len();
    if n == 0 {
        return false;
    }
    let b0 = p[0];
    let need: usize = if 0xC2 <= b0 && b0 <= 0xDF {
        2
    } else if 0xE0 <= b0 && b0 <= 0xEF {
        3
    } else if 0xF0 <= b0 && b0 <= 0xF4 {
        4
    } else {
        0
    };
    if need == 0 || n >= need {
        return false;
    }
    if n >= 2 {
        let b1 = p[1];
        let ok = if b0 == 0xE0 {
            0xA0 <= b1 && b1 <= 0xBF
        } else if b0 == 0xED {
            0x80 <= b1 && b1 <= 0x9F
        } else if b0 == 0xF0 {
            0x90 <= b1 && b1 <= 0xBF
        } else if b0 == 0xF4 {
            0x80 <= b1 && b1 <= 0x8F
        } else {
            0x80 <= b1 && b1 <= 0xBF
        };
        if !ok {
            return false;
        }
    }
    let mut j: usize = 2;
    while j < n
        invariant
            n == p@.len(),
            2 <= j,
            forall|k: int| 2 <= k < j && k < n ==> 0x80 <= #[trigger] p@[k] <= 0xBF,
        decreases n - j,
    {
        if p[j] < 0x80 || p[j] > 0xBF {
            return false;
        }
        j = j + 1;
    }
    true
}

impl Decoder {
    /// A decoder with nothing waiting.
    pub fn new() -> (decoder: Self)
        ensures
            decoder@.pending == Seq::<u8>::empty(),
            decoder@.ready == Seq::<TextUnit>::empty(),
    {
        Decoder { pending: Vec::new(), ready: VecDeque::new() }
    }

    /// Add input bytes and decode what they complete.
    pub fn push(&mut self, bytes: &[u8])
        ensures
            ({
                let decoded = decode_spec(old(self)@.pending + bytes@, false);
                &&& final(self)@.ready == old(self)@.ready + decoded.0
                &&& final(self)@.pending == decoded.1
            }),
    {
        let mut i: usize = 0;
        let ghost start = self.pending@;
        while i < bytes.len()
            invariant
                i <= bytes@.len(),
                self.pending@ == start + bytes@.subrange(0, i as int),
                self.ready@ == old(self)@.ready,
            decreases bytes@.len() - i,
        {
            self.pending.push(bytes[i]);
            i = i + 1;
        }
        proof {
            assert(bytes@.subrange(0, bytes@.len() as int) =~= bytes@);
        }
        self.decode(false);
    }

    /// Decode what is waiting as the end of the input: a cut-off sequence
    /// becomes raw bytes.
    pub fn finish(&mut self)
        ensures
            ({
                let decoded = decode_spec(old(self)@.pending, true);
                &&& final(self)@.ready == old(self)@.ready + decoded.0
                &&& final(self)@.pending == decoded.1
            }),
    {
        self.decode(true);
    }

    /// Whether no decoded unit waits.
    pub fn is_drained(&self) -> (drained: bool)
        ensures
            drained == (self@.ready.len() == 0),
    {
        self.ready.len() == 0
    }

    /// Take the oldest decoded unit.
    pub fn pop(&mut self) -> (unit: Option<TextUnit>)
        ensures
            old(self)@.ready.len() == 0 ==> unit is None && final(self)@ == old(self)@,
            old(self)@.ready.len() > 0 ==> unit == Some(old(self)@.ready[0]) && final(self)@.ready
                == old(self)@.ready.drop_first() && final(self)@.pending == old(self)@.pending,
    {
        self.ready.pop_front()
    }

    /// Drop everything waiting and everything decoded.
    pub fn clear(&mut self)
        ensures
            final(self)@.pending == Seq::<u8>::empty(),
            final(self)@.ready == Seq::<TextUnit>::empty(),
    {
        self.pending.clear();
        self.ready.clear();
    }

    fn decode(&mut self, finished: bool)
        ensures
            ({
                let decoded = decode_spec(old(self)@.pending, finished);
                &&& final(self)@.ready == old(self)@.ready + decoded.0
                &&& final(self)@.pending == decoded.1
            }),
    {
        let ghost all = self.pending@;
        let n = self.pending.len();
        let mut start: usize = 0;
        let mut waiting = false;
        let ghost mut emitted: Seq<TextUnit> = Seq::empty();
        proof {
            assert(all.subrange(0, n as int) =~= all);
            assert(emitted + decode_spec(all, finished).0 =~= decode_spec(all, finished).0);
            assert(self.ready@ =~= old(self)@.ready + emitted);
        }
        while start < n && !waiting
            invariant
                n == all.len(),
                self.pending@ == all,
                start <= n,
                self.ready@ == old(self)@.ready + emitted,
                !waiting ==> decode_spec(all, finished) == (
                    emitted + decode_spec(all.subrange(start as int, n as int), finished).0,
                    decode_spec(all.subrange(start as int, n as int), finished).1,
                ),
                waiting ==> decode_spec(all, finished) == (emitted, all.subrange(start as int, n as int)),
            decreases n - start + if waiting {
                0int
            } else {
                1int
            },
        {
            let rest = vstd::slice::slice_subrange(self.pending.as_slice(), start, n);
            let ghost tail = all.subrange(start as int, n as int);
            assert(rest@ == tail);
            match decode_one(Charset::Utf8, rest) {
                Some((value, len)) => {
                    let unit = match char_from_u32(value) {
                        Some(c) => TextUnit::Scalar(c),
                        None => {
                            proof {
                                assert(false);
                            }
                            TextUnit::RawByte(0)
                        },
                    };
                    self.ready.push_back(unit);
                    proof {
                        assert(tail.subrange(len as int, tail.len() as int) =~= all.subrange(start + len, n as int));
                        emitted = emitted.push(unit);
                    }
                    start = start + len;
                },
                None => {
                    if incomplete_exec(rest) {
                        if finished {
                            let mut k = start;
                            while k < n
                                invariant
                                    n == all.len(),
                                    self.pending@ == all,
                                    start <= k <= n,
                                    self.ready@ == old(self)@.ready + emitted + all.subrange(start as int, k as int).map_values(
                                        |b: u8| TextUnit::RawByte(b),
                                    ),
                                decreases n - k,
                            {
                                self.ready.push_back(TextUnit::RawByte(self.pending[k]));
                                k = k + 1;
                            }
                            proof {
                                emitted = emitted + tail.map_values(|b: u8| TextUnit::RawByte(b));
                            }
                            start = n;
                        } else {
                            waiting = true;
                        }
                    } else {
                        let unit = TextUnit::RawByte(self.pending[start]);
                        self.ready.push_back(unit);
                        proof {
                            emitted = emitted.push(unit);
                            assert(tail.drop_first() =~= all.subrange(start + 1, n as int));
                        }
                        start = start + 1;
                    }
                },
            }
        }
        let remaining = self.pending.split_off(start);
        self.pending = remaining;
    }
}


proof fn lemma_continued_prefix(s: Seq<u8>, t: Seq<u8>, lead: u32, k: nat)
    requires
        k < s.len(),
    ensures
        continued(s + t, lead, k) == continued(s, lead, k),
    decreases k,
{
    if k > 0 {
        lemma_continued_prefix(s, t, lead, (k - 1) as nat);
        assert((s + t)[k as int] == s[k as int]);
    }
}

proof fn lemma_finished_prefix(s: Seq<u8>, t: Seq<u8>, len: nat, lead: u32)
    requires
        1 <= len <= s.len(),
    ensures
        finished(s + t, len, lead) == finished(s, len, lead),
{
    assert(continuations(s + t, len) == continuations(s, len)) by {
        assert forall|j: int| 1 <= j < len implies (s + t)[j] == s[j] by {}
    }
    lemma_continued_prefix(s, t, lead, (len - 1) as nat);
}

proof fn lemma_decoded_len(s: Seq<u8>)
    ensures
        decode_one_spec(Charset::Utf8, s) matches Some((_, n)) ==> 1 <= n <= s.len(),
{
}

/// A sequence that decodes decodes the same with more bytes after it.
proof fn lemma_decode_one_extends(s: Seq<u8>, t: Seq<u8>)
    requires
        decode_one_spec(Charset::Utf8, s) is Some,
    ensures
        decode_one_spec(Charset::Utf8, s + t) == decode_one_spec(Charset::Utf8, s),
{
    let b0 = s[0];
    assert((s + t)[0] == b0);
    if 0xC2 <= b0 <= 0xDF {
        lemma_finished_prefix(s, t, 2, (b0 & 0x1Fu8) as u32);
    } else if 0xE0 <= b0 <= 0xEF {
        lemma_finished_prefix(s, t, 3, (b0 & 0x0Fu8) as u32);
    } else if 0xF0 <= b0 <= 0xF4 {
        lemma_finished_prefix(s, t, 4, (b0 & 0x07u8) as u32);
    }
}

proof fn lemma_continuation_byte(b: u8)
    ensures
        (b & 0xC0u8 == 0x80u8) == (0x80 <= b <= 0xBF),
{
    assert((b & 0xC0u8 == 0x80u8) == (0x80 <= b <= 0xBF)) by (bit_vector);
}

/// A lead byte whose second byte is a continuation byte outside the range
/// `second_ok` allows gives an overlong form, a surrogate or a value above
/// U+10FFFF, whatever follows.
proof fn lemma_second_rejected(s: Seq<u8>)
    requires
        s.len() >= sequence_len(s[0]) >= 3,
        0x80 <= s[1] <= 0xBF,
        !second_ok(s[0], s[1]),
    ensures
        decode_one_spec(Charset::Utf8, s) is None,
{
    let b0 = s[0];
    let b1 = s[1];
    let b2 = s[2];
    reveal_with_fuel(continued, 4);
    if b0 == 0xE0 {
        let v = continued(s, (b0 & 0x0Fu8) as u32, 2);
        assert(v == ((((b0 & 0x0Fu8) as u32) << 6u32 | ((b1 & 0x3Fu8) as u32)) << 6u32) | ((b2 & 0x3Fu8) as u32));
        assert(((((b0 & 0x0Fu8) as u32) << 6u32 | ((b1 & 0x3Fu8) as u32)) << 6u32) | ((b2 & 0x3Fu8) as u32) < 0x800)
            by (bit_vector)
            requires
                b0 == 0xE0,
                0x80 <= b1 <= 0x9F,
        ;
    } else if b0 == 0xED {
        let v = continued(s, (b0 & 0x0Fu8) as u32, 2);
        assert(v == ((((b0 & 0x0Fu8) as u32) << 6u32 | ((b1 & 0x3Fu8) as u32)) << 6u32) | ((b2 & 0x3Fu8) as u32));
        assert(0xD800 <= ((((b0 & 0x0Fu8) as u32) << 6u32 | ((b1 & 0x3Fu8) as u32)) << 6u32) | ((b2 & 0x3Fu8) as u32)
            <= 0xDFFF) by (bit_vector)
            requires
                b0 == 0xED,
                0xA0 <= b1 <= 0xBF,
        ;
    } else if b0 == 0xF0 {
        let b3 = s[3];
        let v = continued(s, (b0 & 0x07u8) as u32, 3);
        assert(v == ((((((b0 & 0x07u8) as u32) << 6u32 | ((b1 & 0x3Fu8) as u32)) << 6u32) | ((b2 & 0x3Fu8) as u32))
            << 6u32) | ((b3 & 0x3Fu8) as u32));
        assert(((((((b0 & 0x07u8) as u32) << 6u32 | ((b1 & 0x3Fu8) as u32)) << 6u32) | ((b2 & 0x3Fu8) as u32)) << 6u32)
            | ((b3 & 0x3Fu8) as u32) < 0x10000) by (bit_vector)
            requires
                b0 == 0xF0,
                0x80 <= b1 <= 0x8F,
        ;
    } else if b0 == 0xF4 {
        let b3 = s[3];
        let v = continued(s, (b0 & 0x07u8) as u32, 3);
        assert(v == ((((((b0 & 0x07u8) as u32) << 6u32 | ((b1 & 0x3Fu8) as u32)) << 6u32) | ((b2 & 0x3Fu8) as u32))
            << 6u32) | ((b3 & 0x3Fu8) as u32));
        assert(((((((b0 & 0x07u8) as u32) << 6u32 | ((b1 & 0x3Fu8) as u32)) << 6u32) | ((b2 & 0x3Fu8) as u32)) << 6u32)
            | ((b3 & 0x3Fu8) as u32) > 0x10FFFF) by (bit_vector)
            requires
                b0 == 0xF4,
                0x90 <= b1 <= 0xBF,
        ;
    }
}

/// A start that is neither a complete sequence nor a cut-off one stays so
/// with more bytes after it.
proof fn lemma_invalid_extends(s: Seq<u8>, t: Seq<u8>)
    requires
        s.len() >= 1,
        decode_one_spec(Charset::Utf8, s) is None,
        !incomplete(s),
    ensures
        decode_one_spec(Charset::Utf8, s + t) is None,
        !incomplete(s + t),
{
    let u = s + t;
    let b0 = s[0];
    assert(u[0] == b0);
    let need = sequence_len(b0);
    if need == 0 {
        return ;
    }
    let lead: u32 = if need == 2 {
        (b0 & 0x1Fu8) as u32
    } else if need == 3 {
        (b0 & 0x0Fu8) as u32
    } else {
        (b0 & 0x07u8) as u32
    };
    if s.len() >= need {
        lemma_finished_prefix(s, t, need, lead);
        return ;
    }
    if s.len() >= 2 && !second_ok(b0, s[1]) {
        assert(u[1] == s[1]);
        if u.len() >= need {
            lemma_continuation_byte(s[1]);
            if 0x80 <= s[1] <= 0xBF {
                lemma_second_rejected(u);
            }
        }
    } else {
        let j = choose|j: int| 2 <= j < s.len() && !(0x80 <= #[trigger] s[j] <= 0xBF);
        assert(u[j] == s[j]);
        lemma_continuation_byte(s[j]);
        if u.len() >= need {
            assert(!continuations(u, need));
        }
    }
}

/// Input split between two reads decodes to the same units, and leaves the
/// same bytes waiting, as the same input read at once.
pub proof fn law_split_input_decodes_the_same(a: Seq<u8>, b: Seq<u8>, finished: bool)
    ensures
        ({
            let first = decode_spec(a, false);
            let second = decode_spec(first.1 + b, finished);
            decode_spec(a + b, finished) == (first.0 + second.0, second.1)
        }),
    decreases a.len(),
{
    let first = decode_spec(a, false);
    if a.len() == 0 {
        assert(a + b =~= b);
        assert(first.1 + b =~= b);
        assert(first.0 + decode_spec(b, finished).0 =~= decode_spec(b, finished).0);
        return ;
    }
    let ab = a + b;
    assert(ab[0] == a[0]);
    lemma_decoded_len(a);
    lemma_decoded_len(ab);
    match decode_one_spec(Charset::Utf8, a) {
        Some((value, n)) => {
            lemma_decode_one_extends(a, b);
            let rest = a.subrange(n as int, a.len() as int);
            assert(ab.subrange(n as int, ab.len() as int) =~= rest + b);
            law_split_input_decodes_the_same(rest, b, finished);
            let tail = decode_spec(rest, false);
            let second = decode_spec(tail.1 + b, finished);
            assert(seq![TextUnit::Scalar(value as char)] + (tail.0 + second.0) =~= (seq![TextUnit::Scalar(value as char)]
                + tail.0) + second.0);
        },
        None => {
            if incomplete(a) {
                assert(first.0 + decode_spec(a + b, finished).0 =~= decode_spec(a + b, finished).0);
            } else {
                lemma_invalid_extends(a, b);
                let rest = a.drop_first();
                assert(ab.drop_first() =~= rest + b);
                law_split_input_decodes_the_same(rest, b, finished);
                let tail = decode_spec(rest, false);
                let second = decode_spec(tail.1 + b, finished);
                assert(seq![TextUnit::RawByte(a[0])] + (tail.0 + second.0) =~= (seq![TextUnit::RawByte(a[0])] + tail.0)
                    + second.0);
            }
        },
    }
}

} // verus!
