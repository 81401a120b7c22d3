//! What the renderer knows of a terminal: the byte strings of the few
//! operations it uses, the byte it pads with, whether the line is flow
//! controlled, and its speed, by which the delays written into a
//! capability are turned into padding.

use vstd::prelude::*;

use crate::domain::message::{into_string, push_str};

verus! {

/// A line speed in bits per second, never zero.
#[derive(Debug, Clone, Copy, PartialEq, Eq, Hash)]
pub struct BaudRate {
    rate: u32,
}

impl View for BaudRate {
    type V = u32;

    closed spec fn view(&self) -> u32 {
        self.rate
    }
}

impl BaudRate {
    #[verifier::type_invariant]
    spec fn positive(self) -> bool {
        self.rate > 0
    }

    /// The rate of `bits_per_second`, which must not be zero.
    pub fn new(bits_per_second: u32) -> (rate: Option<Self>)
        ensures
            bits_per_second == 0 <==> rate is None,
            rate matches Some(r) ==> r@ == bits_per_second,
    {
        if bits_per_second == 0 {
            None
        } else {
            Some(BaudRate { rate: bits_per_second })
        }
    }

    /// The rate in bits per second.
    pub fn get(self) -> (bits_per_second: u32)
        ensures
            bits_per_second == self@,
            bits_per_second > 0,
    {
        proof {
            use_type_invariant(&self);
        }
        self.rate
    }
}

/// A terminal operation the renderer asks a capability for.
#[derive(Debug, Clone, Copy, PartialEq, Eq, Hash)]
pub enum CapabilityKind {
    ClearToEndOfLine,
    Bell,
    CarriageReturn,
    SaveCursor,
    RestoreCursor,
    CursorUp,
    CursorDown,
    CursorLeft,
    CursorRight,
}

/// What each operation is called in messages.
pub open spec fn kind_description(kind: CapabilityKind) -> Seq<char> {
    match kind {
        CapabilityKind::ClearToEndOfLine => "clear to end of line"@,
        CapabilityKind::Bell => "bell"@,
        CapabilityKind::CarriageReturn => "carriage return"@,
        CapabilityKind::SaveCursor => "save cursor"@,
        CapabilityKind::RestoreCursor => "restore cursor"@,
        CapabilityKind::CursorUp => "cursor up"@,
        CapabilityKind::CursorDown => "cursor down"@,
        CapabilityKind::CursorLeft => "cursor left"@,
        CapabilityKind::CursorRight => "cursor right"@,
    }
}

impl CapabilityKind {
    /// What the operation is called in messages.
    pub fn description(self) -> (text: &'static str)
        ensures
            text@ == kind_description(self),
    {
        match self {
            CapabilityKind::ClearToEndOfLine => "clear to end of line",
            CapabilityKind::Bell => "bell",
            CapabilityKind::CarriageReturn => "carriage return",
            CapabilityKind::SaveCursor => "save cursor",
            CapabilityKind::RestoreCursor => "restore cursor",
            CapabilityKind::CursorUp => "cursor up",
            CapabilityKind::CursorDown => "cursor down",
            CapabilityKind::CursorLeft => "cursor left",
            CapabilityKind::CursorRight => "cursor right",
        }
    }
}

/// The strings of one terminal description, as read from its entry: the
/// first of its names, each capability the renderer uses, the pad string
/// and the flow-control flag, each where the entry has it.
#[derive(Debug, Clone, Default)]
pub struct TerminfoEntry {
    pub name: Option<String>,
    pub clear_to_end: Option<Vec<u8>>,
    pub bell: Option<Vec<u8>>,
    pub carriage_return: Option<Vec<u8>>,
    pub save_cursor: Option<Vec<u8>>,
    pub restore_cursor: Option<Vec<u8>>,
    pub cursor_up: Option<Vec<u8>>,
    pub cursor_down: Option<Vec<u8>>,
    pub cursor_left: Option<Vec<u8>>,
    pub cursor_right: Option<Vec<u8>>,
    pub pad: Option<Vec<u8>>,
    pub flow_controlled: Option<bool>,
}

/// The terminal capabilities the renderer uses. Each is a byte string, as
/// terminal descriptions hold bytes and not text.
#[derive(Debug, Clone, PartialEq, Eq)]
pub struct TerminalProfile {
    name: String,
    clear_to_end: Option<Vec<u8>>,
    bell: Vec<u8>,
    carriage_return: Vec<u8>,
    save_cursor: Option<Vec<u8>>,
    restore_cursor: Option<Vec<u8>>,
    cursor_up: Option<Vec<u8>>,
    cursor_down: Option<Vec<u8>>,
    cursor_left: Vec<u8>,
    cursor_right: Option<Vec<u8>>,
    pad_byte: u8,
    flow_controlled: bool,
    baud_rate: Option<BaudRate>,
}

/// A terminal profile by value.
#[verifier::ext_equal]
pub ghost struct ProfileView {
    pub name: Seq<char>,
    pub clear_to_end: Option<Seq<u8>>,
    pub bell: Seq<u8>,
    pub carriage_return: Seq<u8>,
    pub save_cursor: Option<Seq<u8>>,
    pub restore_cursor: Option<Seq<u8>>,
    pub cursor_up: Option<Seq<u8>>,
    pub cursor_down: Option<Seq<u8>>,
    pub cursor_left: Seq<u8>,
    pub cursor_right: Option<Seq<u8>>,
    pub pad_byte: u8,
    pub flow_controlled: bool,
    pub baud_rate: Option<u32>,
}

/// An optional byte string by value.
pub open spec fn bytes_view(bytes: Option<Vec<u8>>) -> Option<Seq<u8>> {
    match bytes {
        Some(b) => Some(b@),
        None => None,
    }
}

/// An optional rate by value.
pub open spec fn rate_view(rate: Option<BaudRate>) -> Option<u32> {
    match rate {
        Some(r) => Some(r@),
        None => None,
    }
}

impl View for TerminalProfile {
    type V = ProfileView;

    closed spec fn view(&self) -> ProfileView {
        ProfileView {
            name: self.name@,
            clear_to_end: bytes_view(self.clear_to_end),
            bell: self.bell@,
            carriage_return: self.carriage_return@,
            save_cursor: bytes_view(self.save_cursor),
            restore_cursor: bytes_view(self.restore_cursor),
            cursor_up: bytes_view(self.cursor_up),
            cursor_down: bytes_view(self.cursor_down),
            cursor_left: self.cursor_left@,
            cursor_right: bytes_view(self.cursor_right),
            pad_byte: self.pad_byte,
            flow_controlled: self.flow_controlled,
            baud_rate: rate_view(self.baud_rate),
        }
    }
}

/// The capability a profile has for an operation, if any.
pub open spec fn capability_of(p: ProfileView, kind: CapabilityKind) -> Option<Seq<u8>> {
    match kind {
        CapabilityKind::ClearToEndOfLine => p.clear_to_end,
        CapabilityKind::Bell => Some(p.bell),
        CapabilityKind::CarriageReturn => Some(p.carriage_return),
        CapabilityKind::SaveCursor => p.save_cursor,
        CapabilityKind::RestoreCursor => p.restore_cursor,
        CapabilityKind::CursorUp => p.cursor_up,
        CapabilityKind::CursorDown => p.cursor_down,
        CapabilityKind::CursorLeft => Some(p.cursor_left),
        CapabilityKind::CursorRight => p.cursor_right,
    }
}

/// The profile of a terminal known to follow ANSI.
pub open spec fn ansi_view() -> ProfileView {
    ProfileView {
        name: "ansi"@,
        clear_to_end: Some(seq![0x1bu8, 0x5b, 0x4b]),
        bell: seq![0x07u8],
        carriage_return: seq![0x0du8],
        save_cursor: Some(seq![0x1bu8, 0x37]),
        restore_cursor: Some(seq![0x1bu8, 0x38]),
        cursor_up: Some(seq![0x1bu8, 0x5b, 0x41]),
        cursor_down: Some(seq![0x1bu8, 0x5b, 0x42]),
        cursor_left: seq![0x08u8],
        cursor_right: Some(seq![0x1bu8, 0x5b, 0x43]),
        pad_byte: 0,
        flow_controlled: false,
        baud_rate: None,
    }
}

/// The profile of a terminal of one line that cannot address its cursor.
pub open spec fn plain_view() -> ProfileView {
    ProfileView {
        name: "plain"@,
        clear_to_end: None,
        bell: seq![0x07u8],
        carriage_return: seq![0x0du8],
        save_cursor: None,
        restore_cursor: None,
        cursor_up: None,
        cursor_down: None,
        cursor_left: seq![0x08u8],
        cursor_right: None,
        pad_byte: 0,
        flow_controlled: false,
        baud_rate: None,
    }
}

/// A capability of an entry: absent where the entry lacks it or holds an
/// empty string.
pub open spec fn entry_capability(bytes: Option<Vec<u8>>) -> Option<Seq<u8>> {
    match bytes {
        Some(b) => if b@.len() > 0 {
            Some(b@)
        } else {
            None
        },
        None => None,
    }
}

/// The profile read from an entry: its first name or "terminfo", each
/// capability it has, the bell, carriage return and cursor-left strings of
/// ANSI where it lacks them, the first byte of its pad string or zero, its
/// flow-control flag or none, and no line speed.
pub open spec fn terminfo_view(entry: TerminfoEntry) -> ProfileView {
    ProfileView {
        name: match entry.name {
            Some(n) => n@,
            None => "terminfo"@,
        },
        clear_to_end: entry_capability(entry.clear_to_end),
        bell: match entry_capability(entry.bell) {
            Some(b) => b,
            None => seq![0x07u8],
        },
        carriage_return: match entry_capability(entry.carriage_return) {
            Some(b) => b,
            None => seq![0x0du8],
        },
        save_cursor: entry_capability(entry.save_cursor),
        restore_cursor: entry_capability(entry.restore_cursor),
        cursor_up: entry_capability(entry.cursor_up),
        cursor_down: entry_capability(entry.cursor_down),
        cursor_left: match entry_capability(entry.cursor_left) {
            Some(b) => b,
            None => seq![0x08u8],
        },
        cursor_right: entry_capability(entry.cursor_right),
        pad_byte: match entry.pad {
            Some(p) => if p@.len() > 0 {
                p@[0]
            } else {
                0
            },
            None => 0,
        },
        flow_controlled: match entry.flow_controlled {
            Some(f) => f,
            None => false,
        },
        baud_rate: None,
    }
}

fn string_of(s: &str) -> (text: String)
    ensures
        text@ == s@,
{
    let mut characters: Vec<char> = Vec::new();
    push_str(&mut characters, s);
    into_string(&characters)
}

fn non_empty(bytes: Option<Vec<u8>>) -> (capability: Option<Vec<u8>>)
    ensures
        bytes_view(capability) == entry_capability(bytes),
{
    match bytes {
        Some(b) => if b.len() > 0 {
            Some(b)
        } else {
            None
        },
        None => None,
    }
}

fn or_default(bytes: Option<Vec<u8>>, default: Vec<u8>) -> (capability: Vec<u8>)
    ensures
        capability@ == match entry_capability(bytes) {
            Some(b) => b,
            None => default@,
        },
{
    match non_empty(bytes) {
        Some(b) => b,
        None => default,
    }
}

/// Whether the byte is an ASCII decimal digit.
pub open spec fn is_ascii_digit(b: u8) -> bool {
    0x30 <= b <= 0x39
}

/// The end of the run of digits from `i`.
pub open spec fn digit_run_end(body: Seq<u8>, i: int) -> int
    decreases body.len() - i,
{
    if 0 <= i < body.len() && is_ascii_digit(body[i]) {
        digit_run_end(body, i + 1)
    } else {
        i
    }
}

/// The decimal value of the digits from `from` up to `to`, held at the
/// largest `u32` once it would pass it.
pub open spec fn saturating_decimal(body: Seq<u8>, from: int, to: int) -> int
    decreases to - from,
{
    if to <= from {
        0
    } else {
        let v = saturating_decimal(body, from, to - 1) * 10 + (body[to - 1] - 0x30);
        if v > u32::MAX {
            u32::MAX as int
        } else {
            v
        }
    }
}

/// The modifiers after a delay: each of `*` and `/` at most once, nothing
/// else.
pub open spec fn modifiers_ok(rest: Seq<u8>) -> bool {
    &&& forall|i: int| 0 <= i < rest.len() ==> #[trigger] rest[i] == 0x2a || rest[i] == 0x2f
    &&& forall|i: int, j: int| 0 <= i < j < rest.len() ==> #[trigger] rest[i] != #[trigger] rest[j]
}

/// Whether `s` holds the byte `b` before `k`.
pub open spec fn holds_before(s: Seq<u8>, k: int, b: u8) -> bool {
    exists|i: int| 0 <= i < k && #[trigger] s[i] == b
}

/// A delay read from a `$<..>` marker: in tenths of a millisecond, whether
/// it is per affected line and whether it is owed even under flow control.
#[derive(Debug, Clone, Copy, PartialEq, Eq)]
pub struct Delay {
    pub tenths: u32,
    pub per_line: bool,
    pub mandatory: bool,
}

/// The delay a marker's body gives: milliseconds as digits, one optional
/// tenth after a point, then the modifiers; nothing where it is malformed.
/// Counts that pass the largest `u32` stop there.
pub open spec fn delay_of(body: Seq<u8>) -> Option<Delay> {
    let d = digit_run_end(body, 0);
    let ms = saturating_decimal(body, 0, d);
    let whole = if ms * 10 > u32::MAX {
        u32::MAX as int
    } else {
        ms * 10
    };
    let point = d < body.len() && body[d] == 0x2e;
    if d == 0 {
        None
    } else if point && !(d + 1 < body.len() && is_ascii_digit(body[d + 1])) {
        None
    } else {
        let tenths = if point {
            if whole + (body[d + 1] - 0x30) > u32::MAX {
                u32::MAX as int
            } else {
                whole + (body[d + 1] - 0x30)
            }
        } else {
            whole
        };
        let rest = body.subrange(if point { d + 2 } else { d }, body.len() as int);
        if modifiers_ok(rest) {
            Some(
                Delay {
                    tenths: tenths as u32,
                    per_line: holds_before(rest, rest.len() as int, 0x2a),
                    mandatory: holds_before(rest, rest.len() as int, 0x2f),
                },
            )
        } else {
            None
        }
    }
}

proof fn lemma_digit_run(body: Seq<u8>, i: int)
    requires
        0 <= i <= body.len(),
    ensures
        i <= digit_run_end(body, i) <= body.len(),
        forall|j: int| i <= j < digit_run_end(body, i) ==> is_ascii_digit(#[trigger] body[j]),
    decreases body.len() - i,
{
    if i < body.len() && is_ascii_digit(body[i]) {
        lemma_digit_run(body, i + 1);
    }
}

proof fn lemma_saturating_decimal_bound(body: Seq<u8>, from: int, to: int)
    requires
        0 <= from,
        to <= body.len(),
        forall|j: int| from <= j < to ==> is_ascii_digit(#[trigger] body[j]),
    ensures
        0 <= saturating_decimal(body, from, to) <= u32::MAX,
    decreases to - from,
{
    if to > from {
        lemma_saturating_decimal_bound(body, from, to - 1);
    }
}

fn saturating_mul_u32(a: u32, b: u32) -> (product: u32)
    ensures
        product == if a * b > u32::MAX {
            u32::MAX as int
        } else {
            a * b
        },
{
    match a.checked_mul(b) {
        Some(v) => v,
        None => u32::MAX,
    }
}

fn saturating_mul_u64(a: u64, b: u64) -> (product: u64)
    ensures
        product == if a * b > u64::MAX {
            u64::MAX as int
        } else {
            a * b
        },
{
    match a.checked_mul(b) {
        Some(v) => v,
        None => u64::MAX,
    }
}

/// Read the body of a `$<..>` marker, the bytes from `from` up to `to`.
pub fn parse_delay(bytes: &[u8], from: usize, to: usize) -> (delay: Option<Delay>)
    requires
        from <= to <= bytes@.len(),
    ensures
        delay == delay_of(bytes@.subrange(from as int, to as int)),
{
    let ghost body = bytes@.subrange(from as int, to as int);
    let len = to - from;
    let mut index: usize = 0;
    let mut milliseconds: u32 = 0;
    proof {
        lemma_digit_run(body, 0);
    }
    while index < len && 0x30 <= bytes[from + index] && bytes[from + index] <= 0x39
        invariant
            from <= to <= bytes@.len(),
            len == to - from,
            body == bytes@.subrange(from as int, to as int),
            index <= digit_run_end(body, 0) <= len,
            forall|j: int| 0 <= j < digit_run_end(body, 0) ==> is_ascii_digit(#[trigger] body[j]),
            digit_run_end(body, index as int) == digit_run_end(body, 0),
            milliseconds == saturating_decimal(body, 0, index as int),
        decreases len - index,
    {
        proof {
            lemma_saturating_decimal_bound(body, 0, index as int);
        }
        proof {
            lemma_digit_run(body, index + 1);
        }
        let digit = (bytes[from + index] - 0x30) as u32;
        milliseconds = saturating_mul_u32(milliseconds, 10).saturating_add(digit);
        index = index + 1;
    }
    if index == 0 {
        return None;
    }
    let ghost d = index as int;
    proof {
        assert(d == digit_run_end(body, 0));
        if d < len {
            assert(body[d] == bytes@[from + d]);
        }
        if d + 1 < len {
            assert(body[d + 1] == bytes@[from + d + 1]);
        }
    }
    let ghost point = d < len && body[d] == 0x2e;
    let mut tenths = saturating_mul_u32(milliseconds, 10);
    if index < len && bytes[from + index] == 0x2e {
        index = index + 1;
        if !(index < len && 0x30 <= bytes[from + index] && bytes[from + index] <= 0x39) {
            return None;
        }
        tenths = tenths.saturating_add((bytes[from + index] - 0x30) as u32);
        index = index + 1;
    }
    let ghost start = index as int;
    assert(start == if point { d + 2 } else { d });
    let ghost rest = body.subrange(start, len as int);
    let mut per_line = false;
    let mut mandatory = false;
    let mut k = index;
    while k < len
        invariant
            from <= to <= bytes@.len(),
            len == to - from,
            body == bytes@.subrange(from as int, to as int),
            body.len() == len,
            0 <= start <= k <= len,
            0 < d == digit_run_end(body, 0),
            point == (d < len && body[d] == 0x2e),
            !(point && !(d + 1 < len && is_ascii_digit(body[d + 1]))),
            start == if point { d + 2 } else { d },
            rest == body.subrange(start, len as int),
            modifiers_ok(rest.subrange(0, k - start)),
            per_line == holds_before(rest, k - start, 0x2a),
            mandatory == holds_before(rest, k - start, 0x2f),
        decreases len - k,
    {
        let modifier = bytes[from + k];
        if modifier == 0x2a && !per_line {
            per_line = true;
        } else if modifier == 0x2f && !mandatory {
            mandatory = true;
        } else {
            proof {
                assert(!modifiers_ok(rest)) by {
                    let m = k - start;
                    assert(body[k as int] == bytes@[from + k]);
                    assert(rest[m] == body[k as int]);
                    if modifier == 0x2a {
                        let i = choose|i: int| 0 <= i < m && #[trigger] rest[i] == 0x2a;
                        assert(rest[i] == rest[m]);
                    } else if modifier == 0x2f {
                        let i = choose|i: int| 0 <= i < m && #[trigger] rest[i] == 0x2f;
                        assert(rest[i] == rest[m]);
                    }
                }
            }
            return None;
        }
        proof {
            let m = k - start;
            assert(body[k as int] == bytes@[from + k]);
            assert(rest[m] == body[k as int]);
            let pre = rest.subrange(0, m + 1);
            assert forall|i: int, j: int| 0 <= i < j < pre.len() implies #[trigger] pre[i] != #[trigger] pre[j] by {
                if j == m {
                    if pre[i] == pre[j] {
                        assert(rest[i] == rest[m]);
                    }
                } else {
                    assert(rest.subrange(0, m)[i] == pre[i]);
                    assert(rest.subrange(0, m)[j] == pre[j]);
                }
            }
            assert forall|i: int| 0 <= i < pre.len() implies #[trigger] pre[i] == 0x2a || pre[i] == 0x2f by {
                if i < m {
                    assert(rest.subrange(0, m)[i] == pre[i]);
                }
            }
            if modifier == 0x2a {
                assert(rest[m] == 0x2a);
            } else {
                assert(rest[m] == 0x2f);
            }
            assert(holds_before(rest, m + 1, 0x2a) == (holds_before(rest, m, 0x2a) || rest[m] == 0x2a));
            assert(holds_before(rest, m + 1, 0x2f) == (holds_before(rest, m, 0x2f) || rest[m] == 0x2f));
        }
        k = k + 1;
    }
    proof {
        assert(rest.subrange(0, len - start) =~= rest);
        lemma_saturating_decimal_bound(body, 0, d);
    }
    Some(Delay { tenths, per_line, mandatory })
}

/// Where the first `>` from `j` on lies, or the end of the bytes.
pub open spec fn close_from(bytes: Seq<u8>, j: int) -> int
    decreases bytes.len() - j,
{
    if j >= bytes.len() {
        bytes.len() as int
    } else if bytes[j] == 0x3e {
        j
    } else {
        close_from(bytes, j + 1)
    }
}

/// How many pad bytes a delay takes on a line of `bits_per_second`: the
/// delay in tenths of a millisecond, times the affected lines where it is
/// per line, times the rate, over a hundred thousand; each product held at
/// the largest `u64`.
pub open spec fn pad_count(delay: Delay, lines: nat, bits_per_second: u32) -> int {
    let factor = if delay.per_line {
        lines as int
    } else {
        1
    };
    let t = if delay.tenths * factor > u64::MAX {
        u64::MAX as int
    } else {
        delay.tenths * factor
    };
    let b = if t * bits_per_second > u64::MAX {
        u64::MAX as int
    } else {
        t * bits_per_second
    };
    b / 100_000
}

/// The padding a delay realises: none where it is optional and the line is
/// flow controlled, else the pad byte as many times as the delay takes.
pub open spec fn padding(p: ProfileView, delay: Delay, lines: nat) -> Seq<u8> {
    if !delay.mandatory && p.flow_controlled {
        Seq::empty()
    } else {
        let bits = match p.baud_rate {
            Some(r) => r,
            None => 0,
        };
        Seq::new((pad_count(delay, lines, bits) as u64) as usize as nat, |i: int| p.pad_byte)
    }
}

/// The bytes from `i` on with each well-formed `$<..>` delay marker
/// replaced by its padding; a marker that is not closed, or whose body is
/// malformed, stays as it is.
pub open spec fn padded_from(p: ProfileView, bytes: Seq<u8>, i: int, lines: nat) -> Seq<u8>
    decreases bytes.len() - i, 1int,
{
    if i < 0 || i >= bytes.len() {
        Seq::empty()
    } else if !(bytes[i] == 0x24 && i + 1 < bytes.len() && bytes[i + 1] == 0x3c) {
        seq![bytes[i]] + padded_from(p, bytes, i + 1, lines)
    } else {
        padded_marker(p, bytes, i, close_from(bytes, i + 2), lines)
    }
}

/// The bytes from the marker at `i`, whose closing `>` is at `close`, on.
pub open spec fn padded_marker(p: ProfileView, bytes: Seq<u8>, i: int, close: int, lines: nat) -> Seq<u8>
    decreases bytes.len() - i, 0int,
{
    if !(0 <= i < close <= bytes.len()) {
        Seq::empty()
    } else if close >= bytes.len() {
        seq![bytes[i]] + padded_from(p, bytes, i + 1, lines)
    } else {
        match delay_of(bytes.subrange(i + 2, close)) {
            None => bytes.subrange(i, close + 1) + padded_from(p, bytes, close + 1, lines),
            Some(delay) => padding(p, delay, lines) + padded_from(p, bytes, close + 1, lines),
        }
    }
}

proof fn lemma_close_from(bytes: Seq<u8>, j: int)
    requires
        0 <= j <= bytes.len(),
    ensures
        j <= close_from(bytes, j) <= bytes.len(),
        close_from(bytes, j) < bytes.len() ==> bytes[close_from(bytes, j)] == 0x3e,
    decreases bytes.len() - j,
{
    if j < bytes.len() && bytes[j] != 0x3e {
        lemma_close_from(bytes, j + 1);
    }
}

fn find_close(bytes: &[u8], j: usize) -> (close: usize)
    requires
        j <= bytes@.len(),
    ensures
        close == close_from(bytes@, j as int),
{
    let mut k = j;
    while k < bytes.len() && bytes[k] != 0x3e
        invariant
            j <= k <= bytes@.len(),
            close_from(bytes@, k as int) == close_from(bytes@, j as int),
        decreases bytes@.len() - k,
    {
        k = k + 1;
    }
    k
}

fn push_bytes(output: &mut Vec<u8>, bytes: &[u8], from: usize, to: usize)
    requires
        from <= to <= bytes@.len(),
    ensures
        final(output)@ == old(output)@ + bytes@.subrange(from as int, to as int),
{
    let mut k = from;
    while k < to
        invariant
            from <= k <= to <= bytes@.len(),
            output@ == old(output)@ + bytes@.subrange(from as int, k as int),
        decreases to - k,
    {
        output.push(bytes[k]);
        k = k + 1;
        proof {
            assert(output@ =~= old(output)@ + bytes@.subrange(from as int, k as int));
        }
    }
}

fn push_repeated(output: &mut Vec<u8>, byte: u8, count: usize)
    ensures
        final(output)@ == old(output)@ + Seq::new(count as nat, |i: int| byte),
{
    let mut k: usize = 0;
    while k < count
        invariant
            k <= count,
            output@ == old(output)@ + Seq::new(k as nat, |i: int| byte),
        decreases count - k,
    {
        output.push(byte);
        k = k + 1;
        proof {
            assert(output@ =~= old(output)@ + Seq::new(k as nat, |i: int| byte));
        }
    }
}

impl TerminalProfile {
    /// A profile for a terminal already known to follow ANSI.
    pub fn ansi() -> (profile: Self)
        ensures
            profile@ == ansi_view(),
    {
        let profile = TerminalProfile {
            name: string_of("ansi"),
            clear_to_end: Some(vec![0x1bu8, 0x5b, 0x4b]),
            bell: vec![0x07u8],
            carriage_return: vec![0x0du8],
            save_cursor: Some(vec![0x1bu8, 0x37]),
            restore_cursor: Some(vec![0x1bu8, 0x38]),
            cursor_up: Some(vec![0x1bu8, 0x5b, 0x41]),
            cursor_down: Some(vec![0x1bu8, 0x5b, 0x42]),
            cursor_left: vec![0x08u8],
            cursor_right: Some(vec![0x1bu8, 0x5b, 0x43]),
            pad_byte: 0,
            flow_controlled: false,
            baud_rate: None,
        };
        proof {
            assert(profile@ =~= ansi_view());
        }
        profile
    }

    /// A profile of one line that assumes nothing of cursor addressing.
    pub fn plain() -> (profile: Self)
        ensures
            profile@ == plain_view(),
    {
        let profile = TerminalProfile {
            name: string_of("plain"),
            clear_to_end: None,
            bell: vec![0x07u8],
            carriage_return: vec![0x0du8],
            save_cursor: None,
            restore_cursor: None,
            cursor_up: None,
            cursor_down: None,
            cursor_left: vec![0x08u8],
            cursor_right: None,
            pad_byte: 0,
            flow_controlled: false,
            baud_rate: None,
        };
        proof {
            assert(profile@ =~= plain_view());
        }
        profile
    }

    /// The profile of a terminal description.
    pub fn from_terminfo(entry: TerminfoEntry) -> (profile: Self)
        ensures
            profile@ == terminfo_view(entry),
    {
        let ghost given = entry;
        let name = match entry.name {
            Some(n) => n,
            None => string_of("terminfo"),
        };
        let pad_byte = match &entry.pad {
            Some(p) => if p.len() > 0 {
                p[0]
            } else {
                0
            },
            None => 0,
        };
        let flow_controlled = match entry.flow_controlled {
            Some(f) => f,
            None => false,
        };
        let profile = TerminalProfile {
            name,
            clear_to_end: non_empty(entry.clear_to_end),
            bell: or_default(entry.bell, vec![0x07u8]),
            carriage_return: or_default(entry.carriage_return, vec![0x0du8]),
            save_cursor: non_empty(entry.save_cursor),
            restore_cursor: non_empty(entry.restore_cursor),
            cursor_up: non_empty(entry.cursor_up),
            cursor_down: non_empty(entry.cursor_down),
            cursor_left: or_default(entry.cursor_left, vec![0x08u8]),
            cursor_right: non_empty(entry.cursor_right),
            pad_byte,
            flow_controlled,
            baud_rate: None,
        };
        proof {
            assert(profile@ =~= terminfo_view(given));
        }
        profile
    }

    /// The profile with the line speed that padding is realised at.
    pub fn with_baud_rate(self, baud_rate: Option<BaudRate>) -> (profile: Self)
        ensures
            profile@ == (ProfileView { baud_rate: rate_view(baud_rate), ..self@ }),
    {
        let mut profile = self;
        profile.baud_rate = baud_rate;
        proof {
            assert(profile@ =~= (ProfileView { baud_rate: rate_view(baud_rate), ..self@ }));
        }
        profile
    }

    /// The terminal's name.
    pub fn name(&self) -> (name: &str)
        ensures
            name@ == self@.name,
    {
        self.name.as_str()
    }

    /// The line speed, where one was set.
    pub fn baud_rate(&self) -> (baud_rate: Option<BaudRate>)
        ensures
            rate_view(baud_rate) == self@.baud_rate,
    {
        self.baud_rate
    }

    /// Whether the profile can save and restore the cursor and move it up
    /// and down, which a frame of several rows needs.
    pub fn has_relative_region_addressing(&self) -> (has: bool)
        ensures
            has == (self@.save_cursor is Some && self@.restore_cursor is Some && self@.cursor_up is Some
                && self@.cursor_down is Some),
    {
        self.save_cursor.is_some() && self.restore_cursor.is_some() && self.cursor_up.is_some()
            && self.cursor_down.is_some()
    }

    /// Whether the profile can move the cursor right.
    pub fn has_cursor_right(&self) -> (has: bool)
        ensures
            has == self@.cursor_right is Some,
    {
        self.cursor_right.is_some()
    }

    /// The capability for an operation, where the profile has one.
    pub fn capability(&self, kind: CapabilityKind) -> (bytes: Option<&Vec<u8>>)
        ensures
            match bytes {
                Some(b) => capability_of(self@, kind) == Some(b@),
                None => capability_of(self@, kind) is None,
            },
    {
        let found = match kind {
            CapabilityKind::ClearToEndOfLine => &self.clear_to_end,
            CapabilityKind::SaveCursor => &self.save_cursor,
            CapabilityKind::RestoreCursor => &self.restore_cursor,
            CapabilityKind::CursorUp => &self.cursor_up,
            CapabilityKind::CursorDown => &self.cursor_down,
            CapabilityKind::CursorRight => &self.cursor_right,
            CapabilityKind::Bell => {
                return Some(&self.bell);
            },
            CapabilityKind::CarriageReturn => {
                return Some(&self.carriage_return);
            },
            CapabilityKind::CursorLeft => {
                return Some(&self.cursor_left);
            },
        };
        match found {
            Some(b) => Some(b),
            None => None,
        }
    }

    /// Append an expanded capability, each delay marker in it replaced by
    /// the padding it takes on this terminal for `affected_lines` lines.
    pub fn append_padded(&self, output: &mut Vec<u8>, bytes: &[u8], affected_lines: usize)
        ensures
            final(output)@ == old(output)@ + padded_from(self@, bytes@, 0, affected_lines as nat),
    {
        let bits_per_second: u32 = match self.baud_rate {
            Some(rate) => rate.get(),
            None => 0,
        };
        let ghost p = self@;
        let ghost lines = affected_lines as nat;
        let len = bytes.len();
        let mut index: usize = 0;
        while index < len
            invariant
                len == bytes@.len(),
                index <= len,
                p == self@,
                lines == affected_lines as nat,
                bits_per_second == match p.baud_rate {
                    Some(r) => r,
                    None => 0u32,
                },
                old(output)@ + padded_from(p, bytes@, 0, lines) == output@ + padded_from(
                    p,
                    bytes@,
                    index as int,
                    lines,
                ),
            decreases len - index,
        {
            if bytes[index] != 0x24 || index + 1 >= len || bytes[index + 1] != 0x3c {
                output.push(bytes[index]);
                proof {
                    assert(output@ + padded_from(p, bytes@, index + 1, lines) =~= old(output)@ + padded_from(
                        p,
                        bytes@,
                        0,
                        lines,
                    ));
                }
                index = index + 1;
                continue;
            }
            let close = find_close(bytes, index + 2);
            proof {
                lemma_close_from(bytes@, index + 2);
            }
            proof {
                assert(padded_from(p, bytes@, index as int, lines) == padded_marker(
                    p,
                    bytes@,
                    index as int,
                    close as int,
                    lines,
                ));
            }
            if close >= len {
                output.push(bytes[index]);
                proof {
                    assert(padded_marker(p, bytes@, index as int, close as int, lines) == seq![bytes@[index as int]]
                        + padded_from(p, bytes@, index + 1, lines));
                    assert(output@ + padded_from(p, bytes@, index + 1, lines) =~= old(output)@ + padded_from(
                        p,
                        bytes@,
                        0,
                        lines,
                    ));
                }
                index = index + 1;
                continue;
            }
            match parse_delay(bytes, index + 2, close) {
                None => {
                    push_bytes(output, bytes, index, close + 1);
                    proof {
                        assert(padded_marker(p, bytes@, index as int, close as int, lines) == bytes@.subrange(
                            index as int,
                            close + 1,
                        ) + padded_from(p, bytes@, close + 1, lines));
                        assert(output@ + padded_from(p, bytes@, close + 1, lines) =~= old(output)@
                            + padded_from(p, bytes@, 0, lines));
                    }
                    index = close + 1;
                },
                Some(delay) => {
                    if !delay.mandatory && self.flow_controlled {
                        proof {
                            assert(output@ + padded_from(p, bytes@, close + 1, lines) =~= old(output)@
                                + padded_from(p, bytes@, 0, lines));
                        }
                        index = close + 1;
                        continue;
                    }
                    let line_factor: u64 = if delay.per_line {
                        affected_lines as u64
                    } else {
                        1
                    };
                    let tenths = saturating_mul_u64(delay.tenths as u64, line_factor);
                    let count = saturating_mul_u64(tenths, bits_per_second as u64) / 100_000;
                    push_repeated(output, self.pad_byte, #[verifier::truncate] (count as usize));
                    proof {
                        let factor = if delay.per_line {
                            lines as int
                        } else {
                            1
                        };
                        assert(line_factor == factor);
                        let t = if delay.tenths * factor > u64::MAX {
                            u64::MAX as int
                        } else {
                            delay.tenths * factor
                        };
                        assert(tenths == t);
                        assert(pad_count(delay, lines, bits_per_second) == count);
                        assert(padding(p, delay, lines) =~= Seq::new(
                            (#[verifier::truncate] (count as usize)) as nat,
                            |i: int| p.pad_byte,
                        ));
                        assert(padded_marker(p, bytes@, index as int, close as int, lines) == padding(
                            p,
                            delay,
                            lines,
                        ) + padded_from(p, bytes@, close + 1, lines));
                        assert(output@ + padded_from(p, bytes@, close + 1, lines) =~= old(output)@
                            + padded_from(p, bytes@, 0, lines));
                    }
                    index = close + 1;
                },
            }
        }
    }
}

/// Whether the bytes from `i` on hold no `$<` that opens a delay marker.
pub open spec fn unmarked_from(bytes: Seq<u8>, i: int) -> bool {
    forall|j: int| i <= j && j + 1 < bytes.len() ==> !(#[trigger] bytes[j] == 0x24 && bytes[j + 1] == 0x3c)
}

proof fn lemma_unmarked_pass_through(p: ProfileView, bytes: Seq<u8>, i: int, lines: nat)
    requires
        0 <= i <= bytes.len(),
        unmarked_from(bytes, i),
    ensures
        padded_from(p, bytes, i, lines) == bytes.subrange(i, bytes.len() as int),
    decreases bytes.len() - i,
{
    if i < bytes.len() {
        assert(!(bytes[i] == 0x24 && i + 1 < bytes.len() && bytes[i + 1] == 0x3c));
        lemma_unmarked_pass_through(p, bytes, i + 1, lines);
        assert(bytes.subrange(i, bytes.len() as int) =~= seq![bytes[i]] + bytes.subrange(i + 1, bytes.len() as int));
    } else {
        assert(bytes.subrange(i, bytes.len() as int) =~= Seq::<u8>::empty());
    }
}

/// Bytes without a delay marker are sent as they are.
pub proof fn law_unmarked_bytes_pass_through(p: ProfileView, bytes: Seq<u8>, lines: nat)
    requires
        unmarked_from(bytes, 0),
    ensures
        padded_from(p, bytes, 0, lines) == bytes,
{
    lemma_unmarked_pass_through(p, bytes, 0, lines);
    assert(bytes.subrange(0, bytes.len() as int) =~= bytes);
}

/// An optional delay gives no padding on a flow-controlled line, and no
/// delay gives padding on a line whose speed is not known.
pub proof fn law_padding_needs_a_speed(p: ProfileView, delay: Delay, lines: nat)
    ensures
        !delay.mandatory && p.flow_controlled ==> padding(p, delay, lines) == Seq::<u8>::empty(),
        p.baud_rate is None ==> padding(p, delay, lines) == Seq::<u8>::empty(),
{
    if p.baud_rate is None && !(!delay.mandatory && p.flow_controlled) {
        assert(pad_count(delay, lines, 0) == 0);
        assert(padding(p, delay, lines) =~= Seq::<u8>::empty());
    }
}

} // verus!
