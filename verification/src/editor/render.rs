//! What to send a terminal so that it shows a laid-out frame: on a terminal
//! that can address a region of rows, only what changed since the frame it
//! shows, from a saved anchor on the editor's first row; on one that cannot,
//! a single row redrawn or extended in place.
//!
//! The output is planned as a sequence of steps: bytes to send as they are,
//! and capabilities of the terminal's profile, which the caller expands and
//! pads. A step may offer two alternatives, of which the caller sends the
//! one that comes out shorter.

use vstd::prelude::*;

use super::capability::{capability_of, CapabilityKind, ProfileView, TerminalProfile};
use super::layout::{build, laid_out, right_view, rows_view, view_start, visible_rows, Atom, AtomView, Frame, Row, RowView};
use crate::domain::screen::{char_string, char_width, str_width, unicode_char_width, unicode_str_width, CellView};
use crate::domain::text::{char_from_u32, str_chars};
use crate::domain::{Error, Prompt, Screen, ScreenCell, ScreenPosition, ScreenSize, Text, TextIndex, TextUnit};

verus! {

/// One piece of output.
#[derive(Debug)]
pub enum Emit {
    /// Bytes sent as they are.
    Bytes(Vec<u8>),
    /// A capability of the profile, expanded with no parameters for one
    /// affected line, then padded.
    Capability(CapabilityKind),
}

/// A piece of output by value.
pub ghost enum EmitView {
    Bytes(Seq<u8>),
    Capability(CapabilityKind),
}

impl View for Emit {
    type V = EmitView;

    open spec fn view(&self) -> EmitView {
        match self {
            Emit::Bytes(b) => EmitView::Bytes(b@),
            Emit::Capability(k) => EmitView::Capability(*k),
        }
    }
}

/// One step of a plan.
#[derive(Debug)]
pub enum Step {
    /// Send one piece.
    Emit(Emit),
    /// Send whichever of the two comes out shorter once expanded, the
    /// first when they are as long.
    Shorter(Vec<Emit>, Vec<Emit>),
}

/// A step by value.
pub ghost enum StepView {
    Emit(EmitView),
    Shorter(Seq<EmitView>, Seq<EmitView>),
}

/// Pieces by value.
pub open spec fn emits_view(e: Seq<Emit>) -> Seq<EmitView> {
    e.map_values(|x: Emit| x@)
}

impl View for Step {
    type V = StepView;

    open spec fn view(&self) -> StepView {
        match self {
            Step::Emit(e) => StepView::Emit(e@),
            Step::Shorter(a, b) => StepView::Shorter(emits_view(a@), emits_view(b@)),
        }
    }
}

/// Steps by value.
pub open spec fn steps_view(s: Seq<Step>) -> Seq<StepView> {
    s.map_values(|x: Step| x@)
}

/// Pieces as steps that send each.
pub open spec fn lifted(e: Seq<EmitView>) -> Seq<StepView> {
    e.map_values(|x: EmitView| StepView::Emit(x))
}

/// `count` spaces.
pub open spec fn spaces(count: nat) -> Seq<u8> {
    Seq::new(count, |i: int| 0x20u8)
}

/// `count` copies of a capability.
pub open spec fn repeated(kind: CapabilityKind, count: nat) -> Seq<EmitView> {
    Seq::new(count, |i: int| EmitView::Capability(kind))
}

/// A sum held at the largest `usize`.
pub open spec fn sat_add(a: int, b: int) -> int {
    if a + b > usize::MAX {
        usize::MAX as int
    } else {
        a + b
    }
}

/// What an atom sends when the whole row is drawn.
pub open spec fn atom_emit(a: AtomView) -> EmitView {
    match a {
        AtomView::Glyph(t) => EmitView::Bytes(vstd::utf8::encode_utf8(t)),
        AtomView::Literal(b) => EmitView::Bytes(b),
        AtomView::Spaces(n) => EmitView::Bytes(spaces(n)),
    }
}

/// What a row's atoms send when the whole row is drawn.
pub open spec fn atoms_emits(atoms: Seq<AtomView>) -> Seq<EmitView> {
    atoms.map_values(|a: AtomView| atom_emit(a))
}

/// What a row's atoms from the `k`-th, which starts at `column`, send to
/// draw the columns from `start` up to `end`: each glyph that overlaps
/// them, the blanks of each run of spaces within them, and each literal
/// before `end`, at `end` too where `include_end` says so, and every
/// literal before `start`, which sets up what follows.
pub open spec fn range_emits(atoms: Seq<AtomView>, k: int, column: int, start: int, end: int, include_end: bool) -> Seq<
    EmitView,
>
    decreases atoms.len() - k,
{
    if k < 0 || k >= atoms.len() {
        Seq::empty()
    } else {
        match atoms[k] {
            AtomView::Literal(b) => (if column < start || column < end || (include_end && column == end) {
                seq![EmitView::Bytes(b)]
            } else {
                Seq::empty()
            }) + range_emits(atoms, k + 1, column, start, end, include_end),
            AtomView::Glyph(t) => {
                let w = unicode_str_width(t) as int;
                (if column < end && sat_add(column, w) > start {
                    seq![EmitView::Bytes(vstd::utf8::encode_utf8(t))]
                } else {
                    Seq::empty()
                }) + range_emits(atoms, k + 1, sat_add(column, w), start, end, include_end)
            },
            AtomView::Spaces(n) => {
                let e = sat_add(column, n as int);
                let lo = if column > start {
                    column
                } else {
                    start
                };
                let hi = if e < end {
                    e
                } else {
                    end
                };
                seq![EmitView::Bytes(spaces(if hi > lo { (hi - lo) as nat } else { 0 }))] + range_emits(
                    atoms,
                    k + 1,
                    e,
                    start,
                    end,
                    include_end,
                )
            },
        }
    }
}

fn copy_slice(bytes: &[u8]) -> (copy: Vec<u8>)
    ensures
        copy@ == bytes@,
{
    let mut copy: Vec<u8> = Vec::new();
    let mut i: usize = 0;
    while i < bytes.len()
        invariant
            i <= bytes@.len(),
            copy@ == bytes@.subrange(0, i as int),
        decreases bytes@.len() - i,
    {
        copy.push(bytes[i]);
        i = i + 1;
    }
    proof {
        assert(copy@ =~= bytes@);
    }
    copy
}

fn space_bytes(count: usize) -> (bytes: Vec<u8>)
    ensures
        bytes@ == spaces(count as nat),
{
    let mut bytes: Vec<u8> = Vec::new();
    let mut i: usize = 0;
    while i < count
        invariant
            i <= count,
            bytes@ == spaces(i as nat),
        decreases count - i,
    {
        bytes.push(0x20);
        i = i + 1;
        proof {
            assert(bytes@ =~= spaces(i as nat));
        }
    }
    bytes
}

fn glyph_bytes(text: &String) -> (bytes: Vec<u8>)
    ensures
        bytes@ == vstd::utf8::encode_utf8(text@),
{
    copy_slice(text.as_str().as_bytes())
}

fn push_emit(out: &mut Vec<Emit>, e: Emit)
    ensures
        emits_view(final(out)@) == emits_view(old(out)@).push(e@),
{
    out.push(e);
    proof {
        assert(emits_view(out@) =~= emits_view(old(out)@).push(e@));
    }
}

fn push_step(out: &mut Vec<Step>, e: Emit)
    ensures
        steps_view(final(out)@) == steps_view(old(out)@).push(StepView::Emit(e@)),
{
    out.push(Step::Emit(e));
    proof {
        assert(steps_view(out@) =~= steps_view(old(out)@).push(StepView::Emit(e@)));
    }
}

/// Send each of `pieces` as a step of its own.
fn lift_into(out: &mut Vec<Step>, pieces: Vec<Emit>)
    ensures
        steps_view(final(out)@) == steps_view(old(out)@) + lifted(emits_view(pieces@)),
{
    let mut pieces = pieces;
    let ghost all = emits_view(pieces@);
    // Taken from the back into `rest`, then sent from its back.
    let mut rest: Vec<Emit> = Vec::new();
    while pieces.len() > 0
        invariant
            all == emits_view(pieces@) + emits_view(rest@).reverse(),
        decreases pieces@.len(),
    {
        let ghost p0 = emits_view(pieces@);
        let ghost r0 = emits_view(rest@);
        let e = pieces.pop().unwrap();
        rest.push(e);
        proof {
            assert(emits_view(pieces@) =~= p0.drop_last());
            assert(emits_view(rest@) =~= r0.push(e@));
            assert(emits_view(rest@).reverse() =~= seq![e@] + r0.reverse());
            assert(all =~= emits_view(pieces@) + emits_view(rest@).reverse());
        }
    }
    let ghost start = steps_view(out@);
    proof {
        assert(all =~= emits_view(rest@).reverse());
    }
    while rest.len() > 0
        invariant
            steps_view(out@) + lifted(emits_view(rest@).reverse()) == start + lifted(all),
        decreases rest@.len(),
    {
        let ghost r0 = emits_view(rest@);
        let ghost o0 = steps_view(out@);
        let e = rest.pop().unwrap();
        out.push(Step::Emit(e));
        proof {
            assert(emits_view(rest@) =~= r0.drop_last());
            assert(r0.reverse() =~= seq![e@] + emits_view(rest@).reverse());
            assert(steps_view(out@) =~= o0.push(StepView::Emit(e@)));
            assert(steps_view(out@) + lifted(emits_view(rest@).reverse()) =~= o0 + lifted(r0.reverse()));
        }
    }
    proof {
        assert(emits_view(rest@).reverse() =~= Seq::<EmitView>::empty());
        assert(lifted(Seq::<EmitView>::empty()) =~= Seq::<StepView>::empty());
        assert(steps_view(out@) =~= steps_view(out@) + lifted(emits_view(rest@).reverse()));
    }
}

/// Send every atom of a row.
fn append_atoms(out: &mut Vec<Emit>, row: &Row)
    ensures
        emits_view(final(out)@) == emits_view(old(out)@) + atoms_emits(row@.atoms),
{
    let mut i: usize = 0;
    while i < row.atoms.len()
        invariant
            i <= row@.atoms.len(),
            row@.atoms.len() == row.atoms@.len(),
            emits_view(out@) == emits_view(old(out)@) + atoms_emits(row@.atoms.subrange(0, i as int)),
        decreases row.atoms@.len() - i,
    {
        let e = match &row.atoms[i] {
            Atom::Glyph(text) => Emit::Bytes(glyph_bytes(text)),
            Atom::Literal(bytes) => Emit::Bytes(copy_slice(bytes.as_slice())),
            Atom::Spaces(count) => Emit::Bytes(space_bytes(*count)),
        };
        let ghost before = emits_view(out@);
        push_emit(out, e);
        proof {
            assert(row@.atoms[i as int] == row.atoms@[i as int]@);
            assert(e@ == atom_emit(row@.atoms[i as int]));
            assert(atoms_emits(row@.atoms.subrange(0, i + 1)) =~= atoms_emits(row@.atoms.subrange(0, i as int)).push(
                atom_emit(row@.atoms[i as int]),
            ));
        }
        i = i + 1;
    }
    proof {
        assert(row@.atoms.subrange(0, i as int) =~= row@.atoms);
    }
}

/// Send what a row's atoms send to draw the columns from `start` up to
/// `end`.
fn append_atom_range(out: &mut Vec<Emit>, row: &Row, start: usize, end: usize, include_end: bool)
    ensures
        emits_view(final(out)@) == emits_view(old(out)@) + range_emits(
            row@.atoms,
            0,
            0,
            start as int,
            end as int,
            include_end,
        ),
{
    let ghost atoms = row@.atoms;
    let mut column: usize = 0;
    let mut i: usize = 0;
    while i < row.atoms.len()
        invariant
            i <= atoms.len(),
            atoms == row@.atoms,
            atoms.len() == row.atoms@.len(),
            emits_view(out@) + range_emits(atoms, i as int, column as int, start as int, end as int, include_end)
                == emits_view(old(out)@) + range_emits(atoms, 0, 0, start as int, end as int, include_end),
        decreases row.atoms@.len() - i,
    {
        let ghost before = emits_view(out@);
        proof {
            assert(atoms[i as int] == row.atoms@[i as int]@);
        }
        match &row.atoms[i] {
            Atom::Literal(bytes) => {
                if column < start || column < end || (include_end && column == end) {
                    push_emit(out, Emit::Bytes(copy_slice(bytes.as_slice())));
                }
                proof {
                    assert(emits_view(out@) + range_emits(atoms, i + 1, column as int, start as int, end as int, include_end)
                        =~= before + range_emits(atoms, i as int, column as int, start as int, end as int, include_end));
                }
            },
            Atom::Glyph(text) => {
                let width = str_width(text.as_str());
                if column < end && column.saturating_add(width) > start {
                    push_emit(out, Emit::Bytes(glyph_bytes(text)));
                }
                let ghost c0 = column as int;
                column = column.saturating_add(width);
                proof {
                    assert(emits_view(out@) + range_emits(atoms, i + 1, column as int, start as int, end as int, include_end)
                        =~= before + range_emits(atoms, i as int, c0, start as int, end as int, include_end));
                }
            },
            Atom::Spaces(count) => {
                let atom_end = column.saturating_add(*count);
                let lo = if column > start {
                    column
                } else {
                    start
                };
                let hi = if atom_end < end {
                    atom_end
                } else {
                    end
                };
                push_emit(out, Emit::Bytes(space_bytes(hi.saturating_sub(lo))));
                let ghost c0 = column as int;
                column = atom_end;
                proof {
                    assert(emits_view(out@) + range_emits(atoms, i + 1, column as int, start as int, end as int, include_end)
                        =~= before + range_emits(atoms, i as int, c0, start as int, end as int, include_end));
                }
            },
        }
        i = i + 1;
    }
    proof {
        assert(emits_view(out@) =~= emits_view(out@) + range_emits(atoms, i as int, column as int, start as int, end as int, include_end));
    }
}

/// Send a capability where the profile has it; whether it had.
fn append_capability(profile: &TerminalProfile, out: &mut Vec<Emit>, kind: CapabilityKind) -> (has: bool)
    ensures
        has == capability_of(profile@, kind) is Some,
        emits_view(final(out)@) == emits_view(old(out)@) + if has {
            seq![EmitView::Capability(kind)]
        } else {
            Seq::empty()
        },
{
    if profile.capability(kind).is_some() {
        push_emit(out, Emit::Capability(kind));
        proof {
            assert(emits_view(out@) =~= emits_view(old(out)@) + seq![EmitView::Capability(kind)]);
        }
        true
    } else {
        proof {
            assert(emits_view(out@) =~= emits_view(old(out)@) + Seq::empty());
        }
        false
    }
}

/// Send a capability `count` times.
fn append_repeated(out: &mut Vec<Emit>, kind: CapabilityKind, count: usize)
    ensures
        emits_view(final(out)@) == emits_view(old(out)@) + repeated(kind, count as nat),
{
    let mut i: usize = 0;
    while i < count
        invariant
            i <= count,
            emits_view(out@) == emits_view(old(out)@) + repeated(kind, i as nat),
        decreases count - i,
    {
        push_emit(out, Emit::Capability(kind));
        i = i + 1;
        proof {
            assert(emits_view(out@) =~= emits_view(old(out)@) + repeated(kind, i as nat));
        }
    }
}

/// Whether a profile can address a region of rows: it can save and
/// restore the cursor and move it up and down.
pub open spec fn addresses_rows(p: ProfileView) -> bool {
    p.save_cursor is Some && p.restore_cursor is Some && p.cursor_up is Some && p.cursor_down is Some
}

/// A row shown, by value.
pub open spec fn shown_view(row: Option<&Row>) -> Option<RowView> {
    match row {
        Some(r) => Some(r@),
        None => None,
    }
}

/// Where the cursor of a terminal that addresses rows is known to be: the
/// position given, or the anchor once it is restored.
pub open spec fn known_position(cursor: Option<(usize, usize)>) -> (int, int) {
    match cursor {
        Some(at) => (at.0 as int, at.1 as int),
        None => (0, 0),
    }
}

/// What restores the anchor where the cursor's position is not known.
pub open spec fn restore_emits(cursor: Option<(usize, usize)>) -> Seq<EmitView> {
    match cursor {
        Some(at) => Seq::empty(),
        None => seq![EmitView::Capability(CapabilityKind::RestoreCursor)],
    }
}

/// What moves the cursor from row `r0`, column `c0` to row `row`: to the
/// start of the row where it is not there, then up or down a row at a time.
pub open spec fn vertical_emits(r0: int, c0: int, row: int) -> Seq<EmitView> {
    if r0 != row {
        (if c0 != 0 {
            seq![EmitView::Capability(CapabilityKind::CarriageReturn)]
        } else {
            Seq::empty()
        }) + if r0 < row {
            repeated(CapabilityKind::CursorDown, (row - r0) as nat)
        } else {
            repeated(CapabilityKind::CursorUp, (r0 - row) as nat)
        }
    } else {
        Seq::empty()
    }
}

/// What moves the cursor along its row from column `c1` to `column`: left
/// a column at a time, or right a column at a time where the profile can,
/// or else by drawing again what the row shows between the two, or blanks
/// where it shows nothing.
pub open spec fn horizontal_emits(p: ProfileView, c1: int, column: int, shown: Option<RowView>) -> Seq<EmitView> {
    if column < c1 {
        repeated(CapabilityKind::CursorLeft, (c1 - column) as nat)
    } else if column > c1 && p.cursor_right is Some {
        repeated(CapabilityKind::CursorRight, (column - c1) as nat)
    } else if column > c1 {
        match shown {
            Some(r) => range_emits(r.atoms, 0, 0, c1, column, false),
            None => seq![EmitView::Bytes(spaces((column - c1) as nat))],
        }
    } else {
        Seq::empty()
    }
}

/// What moves the cursor of a terminal that addresses rows from where it
/// is, or from the anchor where that is not known, to a row and column.
pub open spec fn move_emits(
    p: ProfileView,
    cursor: Option<(usize, usize)>,
    row: int,
    column: int,
    shown: Option<RowView>,
) -> Seq<EmitView> {
    let (r0, c0) = known_position(cursor);
    restore_emits(cursor) + vertical_emits(r0, c0, row) + horizontal_emits(
        p,
        if r0 != row {
            0
        } else {
            c0
        },
        column,
        shown,
    )
}

/// Move the cursor of a terminal that addresses rows to a row and column.
fn move_addressed_cursor(
    profile: &TerminalProfile,
    out: &mut Vec<Emit>,
    cursor: Option<(usize, usize)>,
    row: usize,
    column: usize,
    shown: Option<&Row>,
)
    requires
        addresses_rows(profile@),
    ensures
        emits_view(final(out)@) == emits_view(old(out)@) + move_emits(
            profile@,
            cursor,
            row as int,
            column as int,
            shown_view(shown),
        ),
{
    let ghost start = emits_view(out@);
    let (r0, c0) = match cursor {
        Some(at) => at,
        None => {
            append_capability(profile, out, CapabilityKind::RestoreCursor);
            (0, 0)
        },
    };
    let ghost after_restore = emits_view(out@);
    assert(after_restore == start + restore_emits(cursor));
    assert(known_position(cursor) == (r0 as int, c0 as int));
    let mut c1 = c0;
    if r0 != row {
        if c0 != 0 {
            append_capability(profile, out, CapabilityKind::CarriageReturn);
            c1 = 0;
        }
        if r0 < row {
            append_repeated(out, CapabilityKind::CursorDown, row - r0);
        } else {
            append_repeated(out, CapabilityKind::CursorUp, r0 - row);
        }
        c1 = 0;
    }
    let ghost after_vertical = emits_view(out@);
    assert(after_vertical =~= after_restore + vertical_emits(r0 as int, c0 as int, row as int));
    if column < c1 {
        append_repeated(out, CapabilityKind::CursorLeft, c1 - column);
    } else if column > c1 && profile.has_cursor_right() {
        append_repeated(out, CapabilityKind::CursorRight, column - c1);
    } else if column > c1 {
        match shown {
            Some(content) => append_atom_range(out, content, c1, column, false),
            None => push_emit(out, Emit::Bytes(space_bytes(column - c1))),
        }
    }
    proof {
        assert(emits_view(out@) =~= after_vertical + horizontal_emits(
            profile@,
            c1 as int,
            column as int,
            shown_view(shown),
        ));
        assert(emits_view(out@) =~= start + move_emits(profile@, cursor, row as int, column as int, shown_view(shown)));
    }
}

fn same_text(a: &str, b: &str) -> (same: bool)
    ensures
        same == (a@ == b@),
{
    let x = str_chars(a);
    let y = str_chars(b);
    if x.len() != y.len() {
        return false;
    }
    let mut i: usize = 0;
    while i < x.len()
        invariant
            x@ == a@,
            y@ == b@,
            x@.len() == y@.len(),
            i <= x@.len(),
            forall|j: int| 0 <= j < i ==> x@[j] == y@[j],
        decreases x@.len() - i,
    {
        if x[i] != y[i] {
            return false;
        }
        i = i + 1;
    }
    proof {
        assert(x@ =~= y@);
    }
    true
}

fn same_bytes(a: &[u8], b: &[u8]) -> (same: bool)
    ensures
        same == (a@ == b@),
{
    if a.len() != b.len() {
        return false;
    }
    let mut i: usize = 0;
    while i < a.len()
        invariant
            a@.len() == b@.len(),
            i <= a@.len(),
            forall|j: int| 0 <= j < i ==> a@[j] == b@[j],
        decreases a@.len() - i,
    {
        if a[i] != b[i] {
            return false;
        }
        i = i + 1;
    }
    proof {
        assert(a@ =~= b@);
    }
    true
}

fn same_cell(a: &ScreenCell, b: &ScreenCell) -> (same: bool)
    ensures
        same == (a@ == b@),
{
    match (a, b) {
        (ScreenCell::Blank, ScreenCell::Blank) => true,
        (ScreenCell::Continuation, ScreenCell::Continuation) => true,
        (ScreenCell::Padding, ScreenCell::Padding) => true,
        (ScreenCell::Glyph(x), ScreenCell::Glyph(y)) => x.width() == y.width() && same_text(x.as_str(), y.as_str()),
        _ => false,
    }
}

fn same_atom(a: &Atom, b: &Atom) -> (same: bool)
    ensures
        same == (a@ == b@),
{
    match (a, b) {
        (Atom::Glyph(x), Atom::Glyph(y)) => same_text(x.as_str(), y.as_str()),
        (Atom::Literal(x), Atom::Literal(y)) => same_bytes(x.as_slice(), y.as_slice()),
        (Atom::Spaces(x), Atom::Spaces(y)) => *x == *y,
        _ => false,
    }
}

fn same_row(a: &Row, b: &Row) -> (same: bool)
    ensures
        same == (a@ == b@),
{
    if a.used != b.used || a.atoms.len() != b.atoms.len() || a.cells.len() != b.cells.len() {
        proof {
            if a@ == b@ {
                assert(a@.atoms.len() == b@.atoms.len());
                assert(a@.cells.len() == b@.cells.len());
            }
        }
        return false;
    }
    let mut i: usize = 0;
    while i < a.atoms.len()
        invariant
            a.atoms@.len() == b.atoms@.len(),
            i <= a.atoms@.len(),
            forall|j: int| 0 <= j < i ==> a@.atoms[j] == b@.atoms[j],
        decreases a.atoms@.len() - i,
    {
        if !same_atom(&a.atoms[i], &b.atoms[i]) {
            proof {
                assert(a@.atoms[i as int] != b@.atoms[i as int]);
            }
            return false;
        }
        i = i + 1;
    }
    let mut k: usize = 0;
    while k < a.cells.len()
        invariant
            a.cells@.len() == b.cells@.len(),
            k <= a.cells@.len(),
            forall|j: int| 0 <= j < k ==> a@.cells[j] == b@.cells[j],
        decreases a.cells@.len() - k,
    {
        if !same_cell(&a.cells[k], &b.cells[k]) {
            proof {
                assert(a@.cells[k as int] != b@.cells[k as int]);
            }
            return false;
        }
        k = k + 1;
    }
    proof {
        assert(a@.atoms =~= b@.atoms);
        assert(a@.cells =~= b@.cells);
    }
    true
}

/// The `i`-th row, where there is one.
pub open spec fn row_at(rows: Seq<RowView>, i: int) -> Option<RowView> {
    if 0 <= i < rows.len() {
        Some(rows[i])
    } else {
        None
    }
}

/// The first column from `j` on of the row starting at `offset` whose
/// cell differs between two images.
pub open spec fn first_cell_change(before: Seq<ScreenCell>, after: Seq<ScreenCell>, offset: int, j: int, columns: int) -> Option<
    int,
>
    decreases columns - j,
{
    if j >= columns {
        None
    } else if before[offset + j]@ != after[offset + j]@ {
        Some(j)
    } else {
        first_cell_change(before, after, offset, j + 1, columns)
    }
}

/// The smaller of two columns, either of which may be missing.
pub open spec fn earliest(a: Option<int>, b: Option<int>) -> Option<int> {
    match (a, b) {
        (Some(x), Some(y)) => Some(
            if x < y {
                x
            } else {
                y
            },
        ),
        (Some(x), None) => Some(x),
        (None, Some(y)) => Some(y),
        (None, None) => None,
    }
}

/// Where a row that was `previous` and is to be `current` first changes:
/// nowhere where it is the same row; else at the first cell that differs
/// between the images, or where the shorter of the two ends when they use
/// different widths, or at its start when it is new or gone, whichever
/// comes first; at its start where none of these holds.
pub open spec fn changed_from(
    before: Seq<ScreenCell>,
    after: Seq<ScreenCell>,
    columns: int,
    row: int,
    current: Option<RowView>,
    previous: Option<RowView>,
) -> Option<int> {
    if current == previous {
        None
    } else {
        let cell = first_cell_change(before, after, row * columns, 0, columns);
        let used = match (previous, current) {
            (Some(b), Some(a)) => if b.used != a.used {
                Some(
                    if b.used < a.used {
                        b.used as int
                    } else {
                        a.used as int
                    },
                )
            } else {
                None
            },
            (Some(_), None) => Some(0),
            (None, Some(_)) => Some(0),
            (None, None) => None,
        };
        match earliest(cell, used) {
            Some(c) => Some(c),
            None => Some(0),
        }
    }
}

fn get_row(rows: &Vec<Row>, i: usize) -> (row: Option<&Row>)
    ensures
        shown_view(row) == row_at(rows_view(rows@), i as int),
{
    if i < rows.len() {
        Some(&rows[i])
    } else {
        None
    }
}

/// Where a row first changes between the image shown and the one to show.
fn first_changed_column(
    before: &Screen,
    after: &Screen,
    row: usize,
    current: Option<&Row>,
    previous: Option<&Row>,
) -> (column: Option<usize>)
    requires
        before.wf(),
        after.wf(),
        before@.0 == after@.0,
        row < after@.0@.0,
    ensures
        match column {
            Some(c) => changed_from(
                before@.1,
                after@.1,
                after@.0@.1 as int,
                row as int,
                shown_view(current),
                shown_view(previous),
            ) == Some(c as int),
            None => changed_from(
                before@.1,
                after@.1,
                after@.0@.1 as int,
                row as int,
                shown_view(current),
                shown_view(previous),
            ) is None,
        },
{
    let same = match (current, previous) {
        (Some(a), Some(b)) => same_row(a, b),
        (None, None) => true,
        _ => false,
    };
    if same {
        return None;
    }
    let columns = after.size().columns();
    let rows = after.size().rows();
    let old_cells = before.cells();
    let new_cells = after.cells();
    let area = new_cells.len();
    proof {
        assert(row * columns + columns <= rows * columns) by (nonlinear_arith)
            requires
                row < rows,
        ;
    }
    let offset = row * columns;
    let mut j: usize = 0;
    while j < columns && same_cell(&old_cells[offset + j], &new_cells[offset + j])
        invariant
            old_cells@ == before@.1,
            new_cells@ == after@.1,
            before@.1.len() == after@.1.len(),
            area == after@.1.len(),
            area == rows * columns,
            offset + columns <= area,
            columns == after@.0@.1,
            j <= columns,
            first_cell_change(before@.1, after@.1, offset as int, j as int, columns as int) == first_cell_change(
                before@.1,
                after@.1,
                offset as int,
                0,
                columns as int,
            ),
        decreases columns - j,
    {
        j = j + 1;
    }
    let cell: Option<usize> = if j < columns {
        Some(j)
    } else {
        None
    };
    proof {
        assert(match cell {
            Some(c) => first_cell_change(before@.1, after@.1, offset as int, 0, columns as int) == Some(c as int),
            None => first_cell_change(before@.1, after@.1, offset as int, 0, columns as int) is None,
        });
    }
    let used: Option<usize> = match (previous, current) {
        (Some(b), Some(a)) => if b.used() != a.used() {
            Some(
                if b.used() < a.used() {
                    b.used()
                } else {
                    a.used()
                },
            )
        } else {
            None
        },
        (Some(_), None) => Some(0),
        (None, Some(_)) => Some(0),
        (None, None) => None,
    };
    match (cell, used) {
        (Some(x), Some(y)) => Some(
            if x < y {
                x
            } else {
                y
            },
        ),
        (Some(x), None) => Some(x),
        (None, Some(y)) => Some(y),
        (None, None) => Some(0),
    }
}

/// What a frame is compared with: the profile, the width of the screen,
/// the rows and image to show, the rows and image shown, whether every
/// row is drawn again, and whether the terminal's rows can no longer be
/// trusted.
pub ghost struct Diff {
    pub profile: ProfileView,
    pub columns: int,
    pub rows: Seq<RowView>,
    pub cells: Seq<ScreenCell>,
    pub shown: Seq<RowView>,
    pub shown_cells: Seq<ScreenCell>,
    pub rewrite: bool,
    pub damaged: bool,
}

/// The comparison of a frame with the rows and image a terminal shows.
pub open spec fn diff_of(
    p: ProfileView,
    frame: Frame,
    shown_screen: Screen,
    shown_rows: Seq<Row>,
    rewrite: bool,
    damaged: bool,
) -> Diff {
    Diff {
        profile: p,
        columns: frame.screen@.0@.1 as int,
        rows: rows_view(frame.rows@),
        cells: frame.screen@.1,
        shown: rows_view(shown_rows),
        shown_cells: shown_screen@.1,
        rewrite,
        damaged,
    }
}

/// Where a row is drawn from: its start when every row is drawn again,
/// else where it first changes, its start where that is past the right
/// edge; nowhere when it has not changed.
pub open spec fn row_start(d: Diff, row: int) -> Option<int> {
    if d.rewrite {
        Some(0)
    } else {
        match changed_from(d.shown_cells, d.cells, d.columns, row, row_at(d.rows, row), row_at(d.shown, row)) {
            None => None,
            Some(s) => Some(
                if s < d.columns {
                    s
                } else {
                    0
                },
            ),
        }
    }
}

/// What draws a row from `start`, where that leaves the cursor, and how
/// much of the row is used: after the last column used where that lies
/// past `start`, unknown where it is the right edge; nothing is drawn of a
/// row that is gone.
pub open spec fn draw_emits(d: Diff, row: int, start: int) -> (Seq<EmitView>, Option<(usize, usize)>, int) {
    match row_at(d.rows, row) {
        Some(c) => (
            range_emits(c.atoms, 0, 0, start, c.used as int, true),
            if c.used > start {
                if c.used < d.columns {
                    Some((row as usize, c.used as usize))
                } else {
                    None
                }
            } else {
                Some((row as usize, start as usize))
            },
            c.used as int,
        ),
        None => (Seq::empty(), Some((row as usize, start as usize)), 0),
    }
}

/// What clears the rest of a row once `used` columns are drawn, where the
/// row is drawn again or was wider: the profile's clear to end of line, or
/// else blanks, up to the right edge when the terminal's rows cannot be
/// trusted and up to the wider of the two rows otherwise; and where that
/// leaves the cursor.
pub open spec fn clear_emits(d: Diff, row: int, used: int, cursor: Option<(usize, usize)>) -> (
    Seq<EmitView>,
    Option<(usize, usize)>,
) {
    let previous_used = match row_at(d.shown, row) {
        Some(r) => r.used as int,
        None => 0,
    };
    if used < d.columns && (d.rewrite || previous_used > used) {
        if d.profile.clear_to_end is Some {
            (seq![EmitView::Capability(CapabilityKind::ClearToEndOfLine)], cursor)
        } else {
            let erase_to = if d.damaged {
                d.columns
            } else if used > previous_used {
                used
            } else {
                previous_used
            };
            let n = if erase_to > used {
                erase_to - used
            } else {
                0
            };
            (
                seq![EmitView::Bytes(spaces(n as nat))],
                if n > 0 {
                    if erase_to < d.columns {
                        Some((row as usize, erase_to as usize))
                    } else {
                        None
                    }
                } else {
                    cursor
                },
            )
        }
    } else {
        (Seq::empty(), cursor)
    }
}

/// What brings one row of a terminal that addresses rows up to date, and
/// where that leaves the cursor: nothing for a row that has not changed;
/// else a move to where it changes, the row drawn from there, and the rest
/// of it cleared.
pub open spec fn row_emits(d: Diff, row: int, cursor: Option<(usize, usize)>) -> (Seq<EmitView>, Option<(usize, usize)>) {
    match row_start(d, row) {
        None => (Seq::empty(), cursor),
        Some(start) => {
            let shown = match row_at(d.rows, row) {
                Some(c) => Some(c),
                None => row_at(d.shown, row),
            };
            let moved = move_emits(d.profile, cursor, row, start, shown);
            let (drawn, after_draw, used) = draw_emits(d, row, start);
            let (cleared, after_clear) = clear_emits(d, row, used, after_draw);
            (moved + drawn + cleared, after_clear)
        },
    }
}

/// What brings the rows from `row` up to `end` up to date, one after the
/// other, and where that leaves the cursor.
pub open spec fn rows_emits(d: Diff, row: int, end: int, cursor: Option<(usize, usize)>) -> (
    Seq<EmitView>,
    Option<(usize, usize)>,
)
    decreases end - row,
{
    if row >= end {
        (Seq::empty(), cursor)
    } else {
        let (e, next) = row_emits(d, row, cursor);
        let (rest, last) = rows_emits(d, row + 1, end, next);
        (e + rest, last)
    }
}

/// Where a row is drawn from, if it is.
fn start_of_row(
    frame: &Frame,
    shown_screen: &Screen,
    shown_rows: &Vec<Row>,
    row: usize,
    rewrite: bool,
    Ghost(d): Ghost<Diff>,
) -> (start: Option<usize>)
    requires
        frame.screen.wf(),
        shown_screen.wf(),
        shown_screen@.0 == frame.screen@.0,
        !rewrite ==> row < frame.screen@.0@.0,
        d.rows == rows_view(frame.rows@),
        d.shown == rows_view(shown_rows@),
        d.cells == frame.screen@.1,
        d.shown_cells == shown_screen@.1,
        d.columns == frame.screen@.0@.1,
        d.rewrite == rewrite,
    ensures
        match start {
            Some(s) => row_start(d, row as int) == Some(s as int),
            None => row_start(d, row as int) is None,
        },
{
    if rewrite {
        return Some(0);
    }
    let columns = frame.screen.size().columns();
    let current = get_row(&frame.rows, row);
    let previous = get_row(shown_rows, row);
    match first_changed_column(shown_screen, &frame.screen, row, current, previous) {
        None => None,
        Some(s) => Some(
            if s < columns {
                s
            } else {
                0
            },
        ),
    }
}

/// Draw a row from `start`; where that leaves the cursor and how much of
/// the row is used.
fn draw_row(out: &mut Vec<Emit>, frame: &Frame, row: usize, start: usize, Ghost(d): Ghost<Diff>) -> (drawn: (
    Option<(usize, usize)>,
    usize,
))
    requires
        d.rows == rows_view(frame.rows@),
        d.columns == frame.screen@.0@.1,
    ensures
        ({
            let (e, t, u) = draw_emits(d, row as int, start as int);
            emits_view(final(out)@) == emits_view(old(out)@) + e && drawn.0 == t && drawn.1 == u
        }),
{
    let columns = frame.screen.size().columns();
    match get_row(&frame.rows, row) {
        Some(content) => {
            append_atom_range(out, content, start, content.used(), true);
            let next = if content.used() > start {
                if content.used() < columns {
                    Some((row, content.used()))
                } else {
                    None
                }
            } else {
                Some((row, start))
            };
            (next, content.used())
        },
        None => {
            proof {
                assert(emits_view(out@) =~= emits_view(old(out)@) + Seq::<EmitView>::empty());
            }
            (Some((row, start)), 0)
        },
    }
}

/// Clear the rest of a row once `used` columns are drawn; where that
/// leaves the cursor.
fn clear_row(
    profile: &TerminalProfile,
    out: &mut Vec<Emit>,
    frame: &Frame,
    shown_rows: &Vec<Row>,
    row: usize,
    used: usize,
    cursor: Option<(usize, usize)>,
    rewrite: bool,
    damaged: bool,
    Ghost(d): Ghost<Diff>,
) -> (next: Option<(usize, usize)>)
    requires
        d.profile == profile@,
        d.shown == rows_view(shown_rows@),
        d.columns == frame.screen@.0@.1,
        d.rewrite == rewrite,
        d.damaged == damaged,
    ensures
        ({
            let (e, t) = clear_emits(d, row as int, used as int, cursor);
            emits_view(final(out)@) == emits_view(old(out)@) + e && next == t
        }),
{
    let columns = frame.screen.size().columns();
    let previous_used: usize = match get_row(shown_rows, row) {
        Some(r) => r.used(),
        None => 0,
    };
    if used < columns && (rewrite || previous_used > used) {
        if append_capability(profile, out, CapabilityKind::ClearToEndOfLine) {
            return cursor;
        }
        let erase_to = if damaged {
            columns
        } else if used > previous_used {
            used
        } else {
            previous_used
        };
        let n = erase_to.saturating_sub(used);
        push_emit(out, Emit::Bytes(space_bytes(n)));
        proof {
            assert(emits_view(out@) =~= emits_view(old(out)@) + seq![EmitView::Bytes(spaces(n as nat))]);
        }
        if n > 0 {
            if erase_to < columns {
                Some((row, erase_to))
            } else {
                None
            }
        } else {
            cursor
        }
    } else {
        proof {
            assert(emits_view(out@) =~= emits_view(old(out)@) + Seq::<EmitView>::empty());
        }
        cursor
    }
}

/// Bring one row of a terminal that addresses rows up to date.
#[verifier::spinoff_prover]
#[verifier::rlimit(40)]
fn encode_row(
    profile: &TerminalProfile,
    out: &mut Vec<Emit>,
    frame: &Frame,
    shown_screen: &Screen,
    shown_rows: &Vec<Row>,
    row: usize,
    cursor: Option<(usize, usize)>,
    rewrite: bool,
    damaged: bool,
) -> (next: Option<(usize, usize)>)
    requires
        addresses_rows(profile@),
        frame.screen.wf(),
        shown_screen.wf(),
        shown_screen@.0 == frame.screen@.0,
        !rewrite ==> row < frame.screen@.0@.0,
    ensures
        ({
            let (e, t) = row_emits(diff_of(profile@, *frame, *shown_screen, shown_rows@, rewrite, damaged), row as int, cursor);
            emits_view(final(out)@) == emits_view(old(out)@) + e && next == t
        }),
{
    let ghost d = diff_of(profile@, *frame, *shown_screen, shown_rows@, rewrite, damaged);
    let start = match start_of_row(frame, shown_screen, shown_rows, row, rewrite, Ghost(d)) {
        None => {
            proof {
                assert(emits_view(out@) =~= emits_view(old(out)@) + Seq::<EmitView>::empty());
            }
            return cursor;
        },
        Some(s) => s,
    };
    let shown = match get_row(&frame.rows, row) {
        Some(c) => Some(c),
        None => get_row(shown_rows, row),
    };
    move_addressed_cursor(profile, out, cursor, row, start, shown);
    let ghost after_move = emits_view(out@);
    let (drawn_cursor, used) = draw_row(out, frame, row, start, Ghost(d));
    let ghost after_draw = emits_view(out@);
    let next = clear_row(profile, out, frame, shown_rows, row, used, drawn_cursor, rewrite, damaged, Ghost(d));
    proof {
        let shown_v = match row_at(d.rows, row as int) {
            Some(c) => Some(c),
            None => row_at(d.shown, row as int),
        };
        assert(shown_view(shown) == shown_v);
        let (drawn, t, u) = draw_emits(d, row as int, start as int);
        let (cleared, t2) = clear_emits(d, row as int, used as int, drawn_cursor);
        assert(emits_view(out@) =~= emits_view(old(out)@) + (move_emits(d.profile, cursor, row as int, start as int, shown_v)
            + drawn + cleared));
    }
    next
}

/// How many rows a frame's output goes over: every row of the region when
/// the terminal's rows cannot be trusted, else every row of either frame.
pub open spec fn rows_to_visit(damaged: bool, extent: int, frame_rows: int, shown_rows: int) -> int {
    if damaged {
        if extent > frame_rows {
            extent
        } else {
            frame_rows
        }
    } else if frame_rows > shown_rows {
        frame_rows
    } else {
        shown_rows
    }
}

/// What brings a terminal that addresses rows from the frame it shows to
/// `d`'s: from the anchor restored when its rows cannot be trusted, else
/// from its cursor; each row brought up to date in turn; then the cursor
/// moved to the frame's, where it is not there already.
pub open spec fn addressed_emits(d: Diff, rows: int, shown_cursor: (usize, usize), target: (usize, usize)) -> Seq<
    EmitView,
> {
    let (head, start) = if d.damaged {
        (seq![EmitView::Capability(CapabilityKind::RestoreCursor)], Some((0usize, 0usize)))
    } else {
        (Seq::empty(), Some(shown_cursor))
    };
    let (body, last) = rows_emits(d, 0, rows, start);
    let tail = if last != Some(target) {
        move_emits(d.profile, last, target.0 as int, target.1 as int, row_at(d.rows, target.0 as int))
    } else {
        Seq::empty()
    };
    head + body + tail
}

/// Bring a terminal that addresses rows from the frame it shows to
/// `frame`.
fn encode_addressed(
    profile: &TerminalProfile,
    frame: &Frame,
    shown_screen: &Screen,
    shown_rows: &Vec<Row>,
    shown_cursor: ScreenPosition,
    extent: usize,
    redraw: bool,
    damaged: bool,
) -> (out: Vec<Emit>)
    requires
        addresses_rows(profile@),
        frame.screen.wf(),
        shown_screen.wf(),
        shown_screen@.0 == frame.screen@.0,
        frame.rows@.len() <= frame.screen@.0@.0,
        shown_rows@.len() <= frame.screen@.0@.0,
    ensures
        emits_view(out@) == addressed_emits(
            diff_of(profile@, *frame, *shown_screen, shown_rows@, redraw || damaged, damaged),
            rows_to_visit(damaged, extent as int, frame.rows@.len() as int, shown_rows@.len() as int),
            (shown_cursor.row, shown_cursor.column),
            (frame.cursor.row, frame.cursor.column),
        ),
{
    let rewrite = redraw || damaged;
    let ghost d = diff_of(profile@, *frame, *shown_screen, shown_rows@, rewrite, damaged);
    let mut out: Vec<Emit> = Vec::new();
    let start: Option<(usize, usize)> = if damaged {
        append_capability(profile, &mut out, CapabilityKind::RestoreCursor);
        Some((0, 0))
    } else {
        Some((shown_cursor.row(), shown_cursor.column()))
    };
    let ghost head = emits_view(out@);
    let frame_rows = frame.rows.len();
    let visited = if damaged {
        if extent > frame_rows {
            extent
        } else {
            frame_rows
        }
    } else if frame_rows > shown_rows.len() {
        frame_rows
    } else {
        shown_rows.len()
    };
    let mut cursor = start;
    let mut row: usize = 0;
    while row < visited
        invariant
            addresses_rows(profile@),
            frame.screen.wf(),
            shown_screen.wf(),
            shown_screen@.0 == frame.screen@.0,
            d == diff_of(profile@, *frame, *shown_screen, shown_rows@, rewrite, damaged),
            rewrite == (redraw || damaged),
            !damaged ==> visited <= frame.screen@.0@.0,
            row <= visited,
            emits_view(out@) + rows_emits(d, row as int, visited as int, cursor).0 == head + rows_emits(
                d,
                0,
                visited as int,
                start,
            ).0,
            rows_emits(d, row as int, visited as int, cursor).1 == rows_emits(d, 0, visited as int, start).1,
        decreases visited - row,
    {
        let ghost before = emits_view(out@);
        let ghost c0 = cursor;
        cursor = encode_row(profile, &mut out, frame, shown_screen, shown_rows, row, cursor, rewrite, damaged);
        proof {
            let (e, t) = row_emits(d, row as int, c0);
            assert(rows_emits(d, row as int, visited as int, c0).0 == e + rows_emits(d, row + 1, visited as int, t).0);
            assert(emits_view(out@) + rows_emits(d, row + 1, visited as int, cursor).0 =~= before + rows_emits(
                d,
                row as int,
                visited as int,
                c0,
            ).0);
        }
        row = row + 1;
    }
    let ghost body_end = emits_view(out@);
    proof {
        assert(body_end =~= head + rows_emits(d, 0, visited as int, start).0);
    }
    let target_row = frame.cursor.row();
    let target_column = frame.cursor.column();
    let at_target = match cursor {
        Some(at) => at.0 == target_row && at.1 == target_column,
        None => false,
    };
    if !at_target {
        move_addressed_cursor(profile, &mut out, cursor, target_row, target_column, get_row(&frame.rows, target_row));
    }
    proof {
        assert(emits_view(out@) =~= addressed_emits(
            d,
            visited as int,
            (shown_cursor.row, shown_cursor.column),
            (frame.cursor.row, frame.cursor.column),
        ));
    }
    out
}

/// A failure to lay out or send a frame.
#[derive(Debug)]
pub enum RenderError {
    /// No terminal profile and screen size are installed yet.
    DisplayNotConfigured,
    /// The editor's state failed revalidation while the frame was built.
    InvalidState(Error),
    /// The terminal cannot position a frame of this many rows.
    RegionAddressUnavailable { rows: usize },
    /// A failed region setup left no position the editor's rows can be
    /// found from.
    RegionOriginUnavailable,
    /// A capability of the profile did not expand.
    CapabilityExpansion { capability: CapabilityKind, source: String },
    /// Writing or flushing the output failed.
    Io(std::io::Error),
}

/// The larger of two counts.
pub open spec fn larger(a: int, b: int) -> int {
    if a > b {
        a
    } else {
        b
    }
}

/// The difference of two counts, or zero.
pub open spec fn sat_sub(a: int, b: int) -> int {
    if a > b {
        a - b
    } else {
        0
    }
}

/// The cheaper of stepping left from column `from` to `to`, and going back
/// to the start of the row and drawing it up to `to`.
pub open spec fn left_or_restart(row: RowView, from: int, to: int) -> Seq<StepView> {
    seq![
        StepView::Shorter(
            repeated(CapabilityKind::CursorLeft, sat_sub(from, to) as nat),
            seq![EmitView::Capability(CapabilityKind::CarriageReturn)] + range_emits(row.atoms, 0, 0, 0, to, true),
        ),
    ]
}

/// What moves a one-row terminal's cursor left from column `from` to `to`:
/// nothing when it is not to the right, one step left for one column, the
/// cheaper way otherwise.
pub open spec fn reposition_steps(row: RowView, from: int, to: int) -> Seq<StepView> {
    let distance = sat_sub(from, to);
    if distance == 0 {
        Seq::empty()
    } else if distance == 1 {
        lifted(repeated(CapabilityKind::CursorLeft, 1))
    } else {
        left_or_restart(row, from, to)
    }
}

/// What draws a one-row terminal's row again: from the start of the row,
/// every atom, then the rest cleared with the profile's clear to end of
/// line or with blanks up to the right edge when the terminal cannot be
/// trusted and to the wider of the two rows otherwise, and the cursor
/// brought back to `target`.
pub open spec fn plain_redraw_steps(p: ProfileView, row: RowView, columns: int, target: int, previous_used: int, damaged: bool) -> Seq<
    StepView,
> {
    let end = if p.clear_to_end is Some {
        row.used as int
    } else if damaged {
        columns
    } else {
        larger(previous_used, row.used as int)
    };
    let clear = if p.clear_to_end is Some {
        seq![EmitView::Capability(CapabilityKind::ClearToEndOfLine)]
    } else {
        seq![EmitView::Bytes(spaces(sat_sub(end, row.used as int) as nat))]
    };
    lifted(seq![EmitView::Capability(CapabilityKind::CarriageReturn)] + atoms_emits(row.atoms) + clear) + reposition_steps(
        row,
        end,
        target,
    )
}

/// How many cells from `j` on are the same in two images, counted to the
/// first that differs or `columns`.
pub open spec fn common_prefix(before: Seq<ScreenCell>, after: Seq<ScreenCell>, j: int, columns: int) -> int
    decreases columns - j,
{
    if j >= columns || before[j]@ != after[j]@ {
        j
    } else {
        common_prefix(before, after, j + 1, columns)
    }
}

/// What brings a one-row terminal from the row it shows to `d`'s first
/// row, with the cursor at `target`: the row drawn again when the terminal
/// cannot be trusted or a redraw was asked for; the row drawn where none
/// is shown; for the same row, the cursor moved, one step left, the
/// cheaper way left, by drawing again up to it rightwards, or from the
/// start of the row when it stays; text added at the end of the row where
/// the cursor was and stays at the row's end and nothing before changes;
/// else the row drawn again.
pub open spec fn plain_steps(d: Diff, shown_cursor: int, target: int) -> Seq<StepView> {
    let row = d.rows[0];
    if d.damaged {
        plain_redraw_steps(d.profile, row, d.columns, target, 0, true)
    } else if d.shown.len() == 0 {
        lifted(atoms_emits(row.atoms)) + reposition_steps(row, row.used as int, target)
    } else if d.rewrite {
        plain_redraw_steps(d.profile, row, d.columns, target, d.shown[0].used as int, false)
    } else if row == d.shown[0] {
        if target < shown_cursor && shown_cursor - target == 1 {
            lifted(repeated(CapabilityKind::CursorLeft, 1))
        } else if target < shown_cursor {
            left_or_restart(row, shown_cursor, target)
        } else if target > shown_cursor {
            lifted(range_emits(row.atoms, 0, 0, shown_cursor, target, true))
        } else {
            lifted(seq![EmitView::Capability(CapabilityKind::CarriageReturn)] + range_emits(row.atoms, 0, 0, 0, target, true))
        }
    } else if shown_cursor == d.shown[0].used && target == row.used && row.used >= d.shown[0].used && common_prefix(
        d.shown_cells,
        d.cells,
        0,
        d.columns,
    ) >= d.shown[0].used {
        lifted(range_emits(row.atoms, 0, 0, shown_cursor, target, true))
    } else {
        plain_redraw_steps(d.profile, row, d.columns, target, d.shown[0].used as int, false)
    }
}

/// Whether a one-row terminal can show the change: neither frame has more
/// than one row, the region has no more than one, and the cursor is on the
/// first; else the rows that would be needed.
pub open spec fn plain_overflow(frame_rows: int, shown_rows: int, extent: int, cursor_row: int) -> Option<int> {
    if frame_rows > 1 || shown_rows > 1 || extent > 1 || cursor_row > 0 {
        Some(larger(larger(frame_rows, shown_rows), extent))
    } else {
        None
    }
}

fn push_steps_of(out: &mut Vec<Step>, pieces: Vec<Emit>)
    ensures
        steps_view(final(out)@) == steps_view(old(out)@) + lifted(emits_view(pieces@)),
{
    lift_into(out, pieces);
}

/// Step left from `from` to `to`, or go back to the start and draw up to
/// `to`, whichever is cheaper.
fn plain_left(row: &Row, from: usize, to: usize) -> (step: Step)
    ensures
        seq![step@] == left_or_restart(row@, from as int, to as int),
{
    let mut left: Vec<Emit> = Vec::new();
    append_repeated(&mut left, CapabilityKind::CursorLeft, from.saturating_sub(to));
    let mut restart: Vec<Emit> = Vec::new();
    push_emit(&mut restart, Emit::Capability(CapabilityKind::CarriageReturn));
    append_atom_range(&mut restart, row, 0, to, true);
    proof {
        assert(emits_view(left@) =~= repeated(CapabilityKind::CursorLeft, sat_sub(from as int, to as int) as nat));
        assert(emits_view(restart@) =~= seq![EmitView::Capability(CapabilityKind::CarriageReturn)] + range_emits(
            row@.atoms,
            0,
            0,
            0,
            to as int,
            true,
        ));
    }
    let step = Step::Shorter(left, restart);
    proof {
        assert(seq![step@] =~= left_or_restart(row@, from as int, to as int));
    }
    step
}

/// Move a one-row terminal's cursor left from `from` to `to`.
fn plain_reposition(out: &mut Vec<Step>, row: &Row, from: usize, to: usize)
    ensures
        steps_view(final(out)@) == steps_view(old(out)@) + reposition_steps(row@, from as int, to as int),
{
    let distance = from.saturating_sub(to);
    if distance == 0 {
        proof {
            assert(steps_view(out@) =~= steps_view(old(out)@) + reposition_steps(row@, from as int, to as int));
        }
    } else if distance == 1 {
        push_step(out, Emit::Capability(CapabilityKind::CursorLeft));
        proof {
            assert(steps_view(out@) =~= steps_view(old(out)@) + reposition_steps(row@, from as int, to as int));
        }
    } else {
        let step = plain_left(row, from, to);
        let ghost before = steps_view(out@);
        out.push(step);
        proof {
            assert(steps_view(out@) =~= before + seq![step@]);
        }
    }
}

/// Draw a one-row terminal's row again and bring the cursor back.
fn plain_redraw(
    profile: &TerminalProfile,
    out: &mut Vec<Step>,
    row: &Row,
    columns: usize,
    target: usize,
    previous_used: usize,
    damaged: bool,
)
    ensures
        steps_view(final(out)@) == steps_view(old(out)@) + plain_redraw_steps(
            profile@,
            row@,
            columns as int,
            target as int,
            previous_used as int,
            damaged,
        ),
{
    let mut pieces: Vec<Emit> = Vec::new();
    push_emit(&mut pieces, Emit::Capability(CapabilityKind::CarriageReturn));
    append_atoms(&mut pieces, row);
    let used = row.used();
    let end = if append_capability(profile, &mut pieces, CapabilityKind::ClearToEndOfLine) {
        used
    } else {
        let erase_to = if damaged {
            columns
        } else if previous_used > used {
            previous_used
        } else {
            used
        };
        push_emit(&mut pieces, Emit::Bytes(space_bytes(erase_to.saturating_sub(used))));
        erase_to
    };
    let ghost drawn = emits_view(pieces@);
    push_steps_of(out, pieces);
    let ghost before = steps_view(out@);
    plain_reposition(out, row, end, target);
    proof {
        assert(steps_view(out@) =~= steps_view(old(out)@) + plain_redraw_steps(
            profile@,
            row@,
            columns as int,
            target as int,
            previous_used as int,
            damaged,
        ));
    }
}

/// Bring a one-row terminal from the row it shows to `frame`'s.
fn encode_plain(
    profile: &TerminalProfile,
    frame: &Frame,
    shown_screen: &Screen,
    shown_rows: &Vec<Row>,
    shown_cursor: ScreenPosition,
    extent: usize,
    redraw: bool,
    damaged: bool,
) -> (result: Result<Vec<Step>, RenderError>)
    requires
        frame.screen.wf(),
        shown_screen.wf(),
        shown_screen@.0 == frame.screen@.0,
        frame.rows@.len() >= 1,
    ensures
        match plain_overflow(frame.rows@.len() as int, shown_rows@.len() as int, extent as int, frame.cursor.row as int) {
            Some(n) => result matches Err(RenderError::RegionAddressUnavailable { rows }) && rows == n,
            None => result matches Ok(steps) && steps_view(steps@) == plain_steps(
                diff_of(profile@, *frame, *shown_screen, shown_rows@, redraw || damaged, damaged),
                shown_cursor.column as int,
                frame.cursor.column as int,
            ),
        },
{
    let ghost d = diff_of(profile@, *frame, *shown_screen, shown_rows@, redraw || damaged, damaged);
    let frame_rows = frame.rows.len();
    if frame_rows > 1 || shown_rows.len() > 1 || extent > 1 || frame.cursor.row() > 0 {
        let wider = if frame_rows > shown_rows.len() {
            frame_rows
        } else {
            shown_rows.len()
        };
        return Err(
            RenderError::RegionAddressUnavailable {
                rows: if wider > extent {
                    wider
                } else {
                    extent
                },
            },
        );
    }
    let row = &frame.rows[0];
    let columns = frame.screen.size().columns();
    let target = frame.cursor.column();
    let mut out: Vec<Step> = Vec::new();
    proof {
        assert(d.rows[0] == row@);
    }
    if damaged {
        plain_redraw(profile, &mut out, row, columns, target, 0, true);
        proof {
            assert(steps_view(out@) =~= plain_steps(d, shown_cursor.column as int, target as int));
        }
        return Ok(out);
    }
    if shown_rows.len() == 0 {
        let mut pieces: Vec<Emit> = Vec::new();
        append_atoms(&mut pieces, row);
        push_steps_of(&mut out, pieces);
        plain_reposition(&mut out, row, row.used(), target);
        proof {
            assert(steps_view(out@) =~= plain_steps(d, shown_cursor.column as int, target as int));
        }
        return Ok(out);
    }
    let previous = &shown_rows[0];
    proof {
        assert(d.shown[0] == previous@);
    }
    if redraw {
        plain_redraw(profile, &mut out, row, columns, target, previous.used(), false);
        proof {
            assert(steps_view(out@) =~= plain_steps(d, shown_cursor.column as int, target as int));
        }
        return Ok(out);
    }
    let from = shown_cursor.column();
    if same_row(row, previous) {
        if target < from && from - target == 1 {
            push_step(&mut out, Emit::Capability(CapabilityKind::CursorLeft));
        } else if target < from {
            let step = plain_left(row, from, target);
            out.push(step);
        } else if target > from {
            let mut pieces: Vec<Emit> = Vec::new();
            append_atom_range(&mut pieces, row, from, target, true);
            push_steps_of(&mut out, pieces);
        } else {
            let mut pieces: Vec<Emit> = Vec::new();
            push_emit(&mut pieces, Emit::Capability(CapabilityKind::CarriageReturn));
            append_atom_range(&mut pieces, row, 0, target, true);
            push_steps_of(&mut out, pieces);
        }
        proof {
            assert(steps_view(out@) =~= plain_steps(d, shown_cursor.column as int, target as int));
        }
        return Ok(out);
    }
    let prefix = common_prefix_of(shown_screen, &frame.screen);
    if from == previous.used() && target == row.used() && row.used() >= previous.used() && prefix >= previous.used() {
        let mut pieces: Vec<Emit> = Vec::new();
        append_atom_range(&mut pieces, row, from, target, true);
        push_steps_of(&mut out, pieces);
        proof {
            assert(steps_view(out@) =~= plain_steps(d, shown_cursor.column as int, target as int));
        }
        return Ok(out);
    }
    plain_redraw(profile, &mut out, row, columns, target, previous.used(), false);
    proof {
        assert(steps_view(out@) =~= plain_steps(d, shown_cursor.column as int, target as int));
    }
    Ok(out)
}

/// How many cells from the start of the first row are the same in two
/// images of one size.
fn common_prefix_of(before: &Screen, after: &Screen) -> (count: usize)
    requires
        before.wf(),
        after.wf(),
        before@.0 == after@.0,
    ensures
        count == common_prefix(before@.1, after@.1, 0, after@.0@.1 as int),
{
    let columns = after.size().columns();
    let rows = after.size().rows();
    let old_cells = before.cells();
    let new_cells = after.cells();
    proof {
        assert(columns <= rows * columns) by (nonlinear_arith)
            requires
                rows >= 1,
        ;
    }
    let mut j: usize = 0;
    while j < columns && same_cell(&old_cells[j], &new_cells[j])
        invariant
            old_cells@ == before@.1,
            new_cells@ == after@.1,
            before@.1.len() == after@.1.len(),
            after@.1.len() == rows * columns,
            columns <= rows * columns,
            columns == after@.0@.1,
            j <= columns,
            common_prefix(before@.1, after@.1, j as int, columns as int) == common_prefix(
                before@.1,
                after@.1,
                0,
                columns as int,
            ),
        decreases columns - j,
    {
        j = j + 1;
    }
    j
}

/// How the rows the editor owns on a terminal that addresses rows are
/// found: not anchored yet, from the saved cursor position, or no longer,
/// after a failed setup.
#[derive(Debug, Clone, Copy, PartialEq, Eq, Structural)]
pub enum RegionOrigin {
    Unanchored,
    Saved,
    Lost,
}

/// The rows the editor owns from its anchor on the current line. `extent`
/// only grows while the anchor holds: a smaller frame or screen does not
/// give back rows that may still show the editor's output.
#[derive(Debug, Clone, Copy, PartialEq, Eq, Structural)]
pub struct PhysicalRegion {
    pub origin: RegionOrigin,
    pub extent: usize,
}

/// No rows owned and no anchor.
pub open spec fn no_region() -> PhysicalRegion {
    PhysicalRegion { origin: RegionOrigin::Unanchored, extent: 0 }
}

/// The steps that set a region up before a frame is sent, the region then
/// owned, and whether they anchor it anew: nothing on a terminal that does
/// not address rows, or while the saved anchor already covers the rows
/// needed; no way when the anchor was lost. Otherwise back to the anchor
/// and down to the last row owned, or to the start of the line when there
/// is none; new lines for the rows still missing; up to the first row; and
/// the anchor saved there.
pub open spec fn region_steps(p: ProfileView, region: PhysicalRegion, required: int) -> Option<
    (Seq<EmitView>, PhysicalRegion, bool),
> {
    if !addresses_rows(p) {
        Some((Seq::empty(), region, false))
    } else if region.origin == RegionOrigin::Lost {
        None
    } else if region.origin == RegionOrigin::Saved && region.extent >= required {
        Some((Seq::empty(), region, false))
    } else {
        let back = if region.origin == RegionOrigin::Saved {
            seq![EmitView::Capability(CapabilityKind::RestoreCursor)] + repeated(
                CapabilityKind::CursorDown,
                sat_sub(region.extent as int, 1) as nat,
            )
        } else {
            seq![EmitView::Capability(CapabilityKind::CarriageReturn)]
        };
        let added = Seq::new(
            sat_sub(required, larger(region.extent as int, 1)) as nat,
            |i: int| EmitView::Bytes(seq![0x0du8, 0x0au8]),
        );
        (Some(
            (
                back + added + repeated(CapabilityKind::CursorUp, sat_sub(required, 1) as nat) + seq![
                    EmitView::Capability(CapabilityKind::SaveCursor),
                ],
                PhysicalRegion { origin: RegionOrigin::Saved, extent: larger(required, region.extent as int) as usize },
                true,
            ),
        ))
    }
}

/// Set up the region for `required` rows.
fn plan_region(profile: &TerminalProfile, region: PhysicalRegion, required: usize) -> (plan: Option<
    (Vec<Emit>, PhysicalRegion, bool),
>)
    ensures
        match region_steps(profile@, region, required as int) {
            None => plan is None,
            Some((e, r, anchors)) => plan matches Some(got) && emits_view(got.0@) == e && got.1 == r && got.2 == anchors,
        },
{
    if !profile.has_relative_region_addressing() {
        return Some((Vec::new(), region, false));
    }
    if region.origin == RegionOrigin::Lost {
        return None;
    }
    if region.origin == RegionOrigin::Saved && region.extent >= required {
        return Some((Vec::new(), region, false));
    }
    let mut out: Vec<Emit> = Vec::new();
    let prior = region.extent;
    if region.origin == RegionOrigin::Saved {
        push_emit(&mut out, Emit::Capability(CapabilityKind::RestoreCursor));
        append_repeated(&mut out, CapabilityKind::CursorDown, prior.saturating_sub(1));
    } else {
        push_emit(&mut out, Emit::Capability(CapabilityKind::CarriageReturn));
    }
    let ghost back = emits_view(out@);
    let occupied = if prior > 1 {
        prior
    } else {
        1
    };
    let mut k = occupied;
    while k < required
        invariant
            occupied <= k <= required || (k == occupied && occupied >= required),
            emits_view(out@) == back + Seq::new(
                (k - occupied) as nat,
                |i: int| EmitView::Bytes(seq![0x0du8, 0x0au8]),
            ),
        decreases required - k,
    {
        push_emit(&mut out, Emit::Bytes(vec![0x0du8, 0x0au8]));
        k = k + 1;
        proof {
            assert(emits_view(out@) =~= back + Seq::new(
                (k - occupied) as nat,
                |i: int| EmitView::Bytes(seq![0x0du8, 0x0au8]),
            ));
        }
    }
    let ghost with_added = emits_view(out@);
    append_repeated(&mut out, CapabilityKind::CursorUp, required.saturating_sub(1));
    push_emit(&mut out, Emit::Capability(CapabilityKind::SaveCursor));
    let extent = if required > prior {
        required
    } else {
        prior
    };
    proof {
        let planned = region_steps(profile@, region, required as int)->0;
        let e = planned.0;
        assert(with_added =~= back + Seq::new(
            sat_sub(required as int, larger(region.extent as int, 1)) as nat,
            |i: int| EmitView::Bytes(seq![0x0du8, 0x0au8]),
        ));
        assert(emits_view(out@) =~= e);
    }
    Some((out, PhysicalRegion { origin: RegionOrigin::Saved, extent }, true))
}

/// What the renderer keeps of a configured display: the profile, the image
/// and rows last committed, the cursor on them, the region owned, and
/// whether the next frame redraws every row or cannot trust the terminal.
struct Configured {
    profile: TerminalProfile,
    screen: Screen,
    rows: Vec<Row>,
    cursor: ScreenPosition,
    rows_used: usize,
    region: PhysicalRegion,
    redraw: bool,
    damaged: bool,
}

/// A configured display by value.
#[verifier::ext_equal]
pub ghost struct DisplayView {
    pub profile: ProfileView,
    pub size: ScreenSize,
    pub cells: Seq<ScreenCell>,
    pub rows: Seq<RowView>,
    pub cursor: ScreenPosition,
    pub rows_used: nat,
    pub region: PhysicalRegion,
    pub redraw: bool,
    pub damaged: bool,
}

impl View for Configured {
    type V = DisplayView;

    closed spec fn view(&self) -> DisplayView {
        DisplayView {
            profile: self.profile@,
            size: self.screen@.0,
            cells: self.screen@.1,
            rows: rows_view(self.rows@),
            cursor: self.cursor,
            rows_used: self.rows_used as nat,
            region: self.region,
            redraw: self.redraw,
            damaged: self.damaged,
        }
    }
}

impl Configured {
    closed spec fn wf(&self) -> bool {
        &&& self.screen.wf()
        &&& self.rows@.len() <= self.screen@.0@.0
        &&& self.rows_used == self.rows@.len()
    }
}

/// The native renderer of one editor: nothing until a display is
/// configured, then what the terminal was last committed to show.
pub struct State {
    configured: Option<Configured>,
}

impl View for State {
    type V = Option<DisplayView>;

    closed spec fn view(&self) -> Option<DisplayView> {
        match self.configured {
            Some(c) => Some(c@),
            None => None,
        }
    }
}

/// A blank image of `size`.
pub open spec fn blank_cells(size: ScreenSize) -> Seq<ScreenCell> {
    Seq::new(size@.0 * size@.1, |i: int| ScreenCell::Blank)
}

/// The top left corner.
pub open spec fn origin() -> ScreenPosition {
    ScreenPosition { row: 0, column: 0 }
}

/// A display just configured: the profile, a blank image of the size, no
/// rows, the cursor in the corner, no region, and nothing owed.
pub open spec fn fresh_display(p: ProfileView, size: ScreenSize) -> DisplayView {
    DisplayView {
        profile: p,
        size,
        cells: blank_cells(size),
        rows: Seq::empty(),
        cursor: origin(),
        rows_used: 0,
        region: no_region(),
        redraw: false,
        damaged: false,
    }
}

/// A display that installs a new profile: a fresh one where there was none
/// or the anchor was lost; otherwise the same region, a blank image and no
/// rows where the size changed, and the next frame sent as if the terminal
/// could not be trusted.
pub open spec fn configured_spec(v: Option<DisplayView>, p: ProfileView, size: ScreenSize) -> DisplayView {
    match v {
        None => fresh_display(p, size),
        Some(d) => if d.region.origin == RegionOrigin::Lost {
            fresh_display(p, size)
        } else if d.size != size {
            DisplayView {
                profile: p,
                size,
                cells: blank_cells(size),
                rows: Seq::empty(),
                cursor: origin(),
                rows_used: 0,
                redraw: false,
                damaged: true,
                ..d
            }
        } else {
            DisplayView { profile: p, redraw: false, damaged: true, ..d }
        },
    }
}

/// A display resized: the same profile and region, a blank image of the new
/// size, no rows, the cursor in the corner, and the next frame sent as if
/// the terminal could not be trusted.
pub open spec fn resized_spec(d: DisplayView, size: ScreenSize) -> DisplayView {
    DisplayView {
        size,
        cells: blank_cells(size),
        rows: Seq::empty(),
        cursor: origin(),
        rows_used: 0,
        redraw: false,
        damaged: true,
        ..d
    }
}

fn blank_screen(size: ScreenSize) -> (screen: Screen)
    ensures
        screen.wf(),
        screen@.0 == size,
        screen@.1 == blank_cells(size),
{
    let screen = Screen::new(size);
    proof {
        assert(screen@.1 =~= blank_cells(size));
    }
    screen
}

impl State {
    /// The renderer's state is consistent: the image has one cell per
    /// position, there are no more rows than the screen has, and the count
    /// of rows used is theirs.
    pub closed spec fn wf(&self) -> bool {
        match self.configured {
            Some(c) => c.wf(),
            None => true,
        }
    }

    /// A renderer with no display configured.
    pub fn new() -> (state: Self)
        ensures
            state.wf(),
            state@ is None,
    {
        State { configured: None }
    }

    /// Install a profile and screen size, keeping the rows the editor owns
    /// on the terminal unless their anchor was lost.
    pub fn configure(&mut self, profile: TerminalProfile, size: ScreenSize)
        requires
            old(self).wf(),
        ensures
            final(self).wf(),
            final(self)@ == Some(configured_spec(old(self)@, profile@, size)),
    {
        let ghost p = profile@;
        match self.configured.take() {
            None => {
                self.configured = Some(
                    Configured {
                        profile,
                        screen: blank_screen(size),
                        rows: Vec::new(),
                        cursor: ScreenPosition { row: 0, column: 0 },
                        rows_used: 0,
                        region: PhysicalRegion { origin: RegionOrigin::Unanchored, extent: 0 },
                        redraw: false,
                        damaged: false,
                    },
                );
                proof {
                    assert(self@->0 =~= configured_spec(old(self)@, p, size));
                }
            },
            Some(mut c) => {
                c.profile = profile;
                if c.region.origin == RegionOrigin::Lost {
                    c.region = PhysicalRegion { origin: RegionOrigin::Unanchored, extent: 0 };
                    c.screen = blank_screen(size);
                    c.rows = Vec::new();
                    c.cursor = ScreenPosition { row: 0, column: 0 };
                    c.rows_used = 0;
                    c.redraw = false;
                    c.damaged = false;
                } else {
                    if c.screen.size() != size {
                        c.screen = blank_screen(size);
                        c.rows = Vec::new();
                        c.cursor = ScreenPosition { row: 0, column: 0 };
                        c.rows_used = 0;
                    }
                    c.redraw = false;
                    c.damaged = true;
                }
                self.configured = Some(c);
                proof {
                    assert(self@->0 =~= configured_spec(old(self)@, p, size));
                }
            },
        }
    }

    /// Resize the display; its rows are repaired by the next frame.
    pub fn resize(&mut self, size: ScreenSize) -> (result: Result<(), RenderError>)
        requires
            old(self).wf(),
        ensures
            final(self).wf(),
            match old(self)@ {
                None => result matches Err(RenderError::DisplayNotConfigured) && final(self)@ == old(self)@,
                Some(d) => result is Ok && final(self)@ == Some(resized_spec(d, size)),
            },
    {
        match self.configured.take() {
            None => Err(RenderError::DisplayNotConfigured),
            Some(mut c) => {
                c.screen = blank_screen(size);
                c.rows = Vec::new();
                c.cursor = ScreenPosition { row: 0, column: 0 };
                c.rows_used = 0;
                c.redraw = false;
                c.damaged = true;
                self.configured = Some(c);
                proof {
                    assert(self@->0 =~= resized_spec(old(self)@->0, size));
                }
                Ok(())
            },
        }
    }

    /// Draw every row of the next frame again.
    pub fn redraw(&mut self)
        requires
            old(self).wf(),
        ensures
            final(self).wf(),
            match old(self)@ {
                None => final(self)@ is None,
                Some(d) => final(self)@ == Some(DisplayView { redraw: true, ..d }),
            },
    {
        match self.configured.take() {
            None => {},
            Some(mut c) => {
                c.redraw = true;
                self.configured = Some(c);
                proof {
                    assert(self@->0 =~= DisplayView { redraw: true, ..old(self)@->0 });
                }
            },
        }
    }

    /// Send the next frame as if the terminal could not be trusted.
    pub fn damage(&mut self)
        requires
            old(self).wf(),
        ensures
            final(self).wf(),
            match old(self)@ {
                None => final(self)@ is None,
                Some(d) => final(self)@ == Some(DisplayView { redraw: false, damaged: true, ..d }),
            },
    {
        match self.configured.take() {
            None => {},
            Some(mut c) => {
                c.redraw = false;
                c.damaged = true;
                self.configured = Some(c);
                proof {
                    assert(self@->0 =~= DisplayView { redraw: false, damaged: true, ..old(self)@->0 });
                }
            },
        }
    }

    /// The profile driving the display.
    pub fn profile(&self) -> (profile: Option<&TerminalProfile>)
        ensures
            match self@ {
                None => profile is None,
                Some(d) => profile matches Some(p) && p@ == d.profile,
            },
    {
        match &self.configured {
            Some(c) => Some(&c.profile),
            None => None,
        }
    }

    /// The image last committed.
    pub fn screen(&self) -> (screen: Option<&Screen>)
        ensures
            match self@ {
                None => screen is None,
                Some(d) => screen matches Some(s) && s@ == (d.size, d.cells),
            },
    {
        match &self.configured {
            Some(c) => Some(&c.screen),
            None => None,
        }
    }

    /// The cursor on the image last committed.
    pub fn cursor(&self) -> (cursor: Option<ScreenPosition>)
        ensures
            match self@ {
                None => cursor is None,
                Some(d) => cursor == Some(d.cursor),
            },
    {
        match &self.configured {
            Some(c) => Some(c.cursor),
            None => None,
        }
    }

    /// The region the editor owns on the terminal.
    pub fn region(&self) -> (region: Option<PhysicalRegion>)
        ensures
            match self@ {
                None => region is None,
                Some(d) => region == Some(d.region),
            },
    {
        match &self.configured {
            Some(c) => Some(c.region),
            None => None,
        }
    }

    /// Whether the next frame is sent as if the terminal could not be
    /// trusted.
    pub fn damaged(&self) -> (damaged: Option<bool>)
        ensures
            match self@ {
                None => damaged is None,
                Some(d) => damaged == Some(d.damaged),
            },
    {
        match &self.configured {
            Some(c) => Some(c.damaged),
            None => None,
        }
    }

    /// How many rows the image last committed uses.
    pub fn rows_used(&self) -> (count: Option<usize>)
        ensures
            match self@ {
                None => count is None,
                Some(d) => count == Some(d.rows_used as usize),
            },
    {
        match &self.configured {
            Some(c) => Some(c.rows_used),
            None => None,
        }
    }
}

impl Default for State {
    fn default() -> (state: Self)
        ensures
            state.wf(),
            state@ is None,
    {
        State::new()
    }
}

/// What a committed frame leaves known: the screen's size, the cursor on
/// it, how many rows the frame uses and how many bytes were sent.
#[derive(Debug, Clone, Copy, PartialEq, Eq, Hash, Structural)]
pub struct RenderSummary {
    size: ScreenSize,
    cursor: ScreenPosition,
    rows_used: usize,
    bytes_written: usize,
}

impl RenderSummary {
    pub closed spec fn size_spec(self) -> ScreenSize {
        self.size
    }

    pub closed spec fn cursor_spec(self) -> ScreenPosition {
        self.cursor
    }

    pub closed spec fn rows_used_spec(self) -> usize {
        self.rows_used
    }

    pub closed spec fn bytes_written_spec(self) -> usize {
        self.bytes_written
    }

    pub fn size(self) -> (size: ScreenSize)
        ensures
            size == self.size_spec(),
    {
        self.size
    }

    pub fn cursor(self) -> (cursor: ScreenPosition)
        ensures
            cursor == self.cursor_spec(),
    {
        self.cursor
    }

    pub fn rows_used(self) -> (rows_used: usize)
        ensures
            rows_used == self.rows_used_spec(),
    {
        self.rows_used
    }

    pub fn bytes_written(self) -> (bytes_written: usize)
        ensures
            bytes_written == self.bytes_written_spec(),
    {
        self.bytes_written
    }
}

/// A frame planned for a configured display and not yet committed: the
/// steps to send, then the frame, the region it leaves owned and whether
/// its steps anchor the region anew.
pub struct Presentation {
    steps: Vec<Step>,
    frame: Frame,
    region: PhysicalRegion,
    anchors: bool,
}

impl Presentation {
    pub closed spec fn steps_spec(&self) -> Seq<Step> {
        self.steps@
    }

    /// The steps to send.
    pub fn steps(&self) -> (steps: &Vec<Step>)
        ensures
            steps@ == self.steps_spec(),
    {
        &self.steps
    }

    pub closed spec fn frame_spec(&self) -> Frame {
        self.frame
    }

    pub closed spec fn region_spec(&self) -> PhysicalRegion {
        self.region
    }

    pub closed spec fn anchors_spec(&self) -> bool {
        self.anchors
    }

    /// The frame's cursor.
    pub fn cursor(&self) -> (cursor: ScreenPosition)
        ensures
            cursor == self.frame_spec().cursor,
    {
        self.frame.cursor
    }
}

/// The frame that shows a prompt, a line with its cursor and a right
/// prompt on a screen of `size`: the rows in view, the cursor among them,
/// the image of them.
pub open spec fn frame_matches(
    frame: Frame,
    size: ScreenSize,
    left: Seq<crate::domain::PromptPart>,
    right: Option<Seq<crate::domain::PromptPart>>,
    line: Seq<TextUnit>,
    cursor: nat,
) -> bool {
    let (rows, at) = laid_out(size@.1, left, right, line, cursor);
    let visible = visible_rows(rows, size@.0, at.0);
    &&& rows_view(frame.rows@) == visible
    &&& frame.cursor == ScreenPosition { row: (at.0 - view_start(size@.0, at.0)) as usize, column: at.1 as usize }
    &&& frame.screen@.0 == size
    &&& frame.screen.wf()
    &&& super::layout::shows(frame.screen@.1, size@.0, size@.1, visible)
    &&& 1 <= frame.rows@.len() <= size@.0
    &&& frame.cursor.row < frame.rows@.len()
    &&& frame.cursor.column < size@.1
}

/// What brings a display from what it shows to `frame` once the region is
/// set up: from the anchor as if the terminal could not be trusted when the
/// setup anchored it anew, else from where the display left off; on a
/// terminal that addresses rows, the rows that changed; on one that does
/// not, its one row; no way for a frame of more rows than it can show.
pub open spec fn encoded_steps(d: DisplayView, frame: Frame, region: PhysicalRegion, anchors: bool) -> Option<
    Seq<StepView>,
> {
    let redraw = d.redraw && !anchors;
    let damaged = d.damaged || anchors;
    let from = if anchors {
        (0usize, 0usize)
    } else {
        (d.cursor.row, d.cursor.column)
    };
    let diff = Diff {
        profile: d.profile,
        columns: frame.screen@.0@.1 as int,
        rows: rows_view(frame.rows@),
        cells: frame.screen@.1,
        shown: d.rows,
        shown_cells: d.cells,
        rewrite: redraw || damaged,
        damaged,
    };
    if addresses_rows(d.profile) {
        Some(
            lifted(
                addressed_emits(
                    diff,
                    rows_to_visit(damaged, region.extent as int, frame.rows@.len() as int, d.rows.len() as int),
                    from,
                    (frame.cursor.row, frame.cursor.column),
                ),
            ),
        )
    } else if plain_overflow(frame.rows@.len() as int, d.rows.len() as int, region.extent as int, frame.cursor.row as int)
        is Some {
        None
    } else {
        Some(plain_steps(diff, from.1 as int, frame.cursor.column as int))
    }
}

/// The display once a frame is committed: its image, rows and cursor, the
/// region the frame leaves owned, and nothing owed.
pub open spec fn committed_spec(d: DisplayView, frame: Frame, region: PhysicalRegion) -> DisplayView {
    DisplayView {
        cells: frame.screen@.1,
        rows: rows_view(frame.rows@),
        cursor: frame.cursor,
        rows_used: frame.rows@.len(),
        region,
        redraw: false,
        damaged: false,
        ..d
    }
}

/// The display once sending a frame failed: the anchor lost where the
/// frame's steps set it anew, and the next frame sent as if the terminal
/// could not be trusted.
pub open spec fn failed_spec(d: DisplayView, anchors: bool) -> DisplayView {
    DisplayView {
        region: if anchors {
            PhysicalRegion { origin: RegionOrigin::Lost, ..d.region }
        } else {
            d.region
        },
        redraw: false,
        damaged: true,
        ..d
    }
}

/// What planning a frame gives on a display: an error where none is
/// configured, where the cursor lies past the line, where the region's
/// anchor was lost, or where a one-row terminal cannot show the frame;
/// otherwise the frame that shows the prompts and line, the region set up
/// for its rows, and the steps that set the region up and then encode the
/// frame.
pub open spec fn presents(
    display: Option<DisplayView>,
    left: Seq<crate::domain::PromptPart>,
    right: Option<Seq<crate::domain::PromptPart>>,
    line: Seq<TextUnit>,
    cursor: nat,
    result: Result<Presentation, RenderError>,
) -> bool {
    match display {
        None => result matches Err(RenderError::DisplayNotConfigured),
        Some(d) => if cursor > line.len() {
            result matches Err(RenderError::InvalidState(e)) && e == (Error::TextIndexOutOfBounds {
                index: cursor as usize,
                len: line.len() as usize,
            })
        } else {
            let (rows, at) = laid_out(d.size@.1, left, right, line, cursor);
            let count = visible_rows(rows, d.size@.0, at.0).len() as int;
            let row = at.0 - view_start(d.size@.0, at.0);
            match region_steps(d.profile, d.region, count) {
                None => result matches Err(RenderError::RegionOriginUnavailable),
                Some((setup, region, anchors)) => if !addresses_rows(d.profile) && plain_overflow(
                    count,
                    d.rows.len() as int,
                    region.extent as int,
                    row,
                ) is Some {
                    result matches Err(RenderError::RegionAddressUnavailable { rows }) && rows
                        == plain_overflow(count, d.rows.len() as int, region.extent as int, row)->0
                } else {
                    result matches Ok(p) && frame_matches(
                        p.frame_spec(),
                        d.size,
                        left,
                        right,
                        line,
                        cursor,
                    ) && p.region_spec() == region && p.anchors_spec() == anchors && encoded_steps(
                        d,
                        p.frame_spec(),
                        region,
                        anchors,
                    ) is Some && steps_view(p.steps_spec()) == lifted(setup) + encoded_steps(
                        d,
                        p.frame_spec(),
                        region,
                        anchors,
                    )->0
                },
            }
        },
    }
}

impl State {
    /// Plan what shows `line`, with the cursor at `cursor`, after the
    /// prompts: the region set up, then the frame encoded against what the
    /// display shows. Nothing changes until the plan is committed.
    pub fn plan_present(&self, left: &Prompt, right: Option<&Prompt>, line: &Text, cursor: TextIndex) -> (result:
        Result<Presentation, RenderError>)
        requires
            self.wf(),
        ensures
            presents(self@, left@, right_view(right), line@, cursor@ as nat, result),
    {
        let c = match &self.configured {
            None => {
                return Err(RenderError::DisplayNotConfigured);
            },
            Some(c) => c,
        };
        let ghost d = c@;
        let size = c.screen.size();
        let frame = match build(size, left, right, line, cursor) {
            Ok(frame) => frame,
            Err(e) => {
                return Err(RenderError::InvalidState(e));
            },
        };
        let screen_rows = size.rows();
        proof {
            let (rows, at) = laid_out(d.size@.1, left@, right_view(right), line@, cursor@ as nat);
            assert(rows_view(c.rows@).len() == c.rows@.len());
            assert(view_start(d.size@.0, at.0) <= at.0);
            assert(frame.cursor.row as int == at.0 - view_start(d.size@.0, at.0));
            assert(rows_view(frame.rows@).len() == frame.rows@.len());
            assert(frame.rows@.len() == visible_rows(rows, d.size@.0, at.0).len());
            assert(frame_matches(frame, d.size, left@, right_view(right), line@, cursor@ as nat));
        }
        let (setup, region, anchors) = match plan_region(&c.profile, c.region, frame.rows.len()) {
            None => {
                return Err(RenderError::RegionOriginUnavailable);
            },
            Some(plan) => plan,
        };
        let redraw = c.redraw && !anchors;
        let damaged = c.damaged || anchors;
        let from = if anchors {
            ScreenPosition { row: 0, column: 0 }
        } else {
            c.cursor
        };
        let mut steps: Vec<Step> = Vec::new();
        lift_into(&mut steps, setup);
        let ghost after_setup = steps_view(steps@);
        if c.profile.has_relative_region_addressing() {
            let body = encode_addressed(&c.profile, &frame, &c.screen, &c.rows, from, region.extent, redraw, damaged);
            lift_into(&mut steps, body);
        } else {
            match encode_plain(&c.profile, &frame, &c.screen, &c.rows, from, region.extent, redraw, damaged) {
                Err(e) => {
                    return Err(e);
                },
                Ok(body) => {
                    let ghost b = steps_view(body@);
                    append_steps(&mut steps, body);
                },
            }
        }
        proof {
            let e = encoded_steps(d, frame, region, anchors);
            assert(e is Some);
            assert(steps_view(steps@) =~= after_setup + e->0);
        }
        Ok(Presentation { steps, frame, region, anchors })
    }

    /// Commit a planned frame once it was sent, `bytes_written` bytes in
    /// all.
    pub fn commit_present(&mut self, presentation: Presentation, bytes_written: usize) -> (summary: RenderSummary)
        requires
            old(self).wf(),
            old(self)@ is Some,
            presentation.frame_spec().screen.wf(),
            presentation.frame_spec().screen@.0 == old(self)@->0.size,
            presentation.frame_spec().rows@.len() <= old(self)@->0.size@.0,
        ensures
            final(self).wf(),
            final(self)@ == Some(
                committed_spec(old(self)@->0, presentation.frame_spec(), presentation.region_spec()),
            ),
            summary.size_spec() == old(self)@->0.size,
            summary.cursor_spec() == presentation.frame_spec().cursor,
            summary.rows_used_spec() == presentation.frame_spec().rows@.len(),
            summary.bytes_written_spec() == bytes_written,
    {
        let mut c = self.configured.take().unwrap();
        let ghost d = c@;
        let Presentation { steps, frame, region, anchors } = presentation;
        let Frame { screen, cursor, rows } = frame;
        let rows_used = rows.len();
        let size = screen.size();
        c.screen = screen;
        c.rows = rows;
        c.cursor = cursor;
        c.rows_used = rows_used;
        c.region = region;
        c.redraw = false;
        c.damaged = false;
        self.configured = Some(c);
        proof {
            assert(self@->0 =~= committed_spec(d, presentation.frame_spec(), presentation.region_spec()));
        }
        RenderSummary { size, cursor, rows_used, bytes_written }
    }

    /// Record that sending a planned frame failed.
    pub fn present_failed(&mut self, presentation: &Presentation)
        requires
            old(self).wf(),
            old(self)@ is Some,
        ensures
            final(self).wf(),
            final(self)@ == Some(failed_spec(old(self)@->0, presentation.anchors_spec())),
    {
        self.fail(presentation.anchors);
    }

    fn fail(&mut self, anchors: bool)
        requires
            old(self).wf(),
            old(self)@ is Some,
        ensures
            final(self).wf(),
            final(self)@ == Some(failed_spec(old(self)@->0, anchors)),
    {
        let mut c = self.configured.take().unwrap();
        let ghost d = c@;
        if anchors {
            c.region = PhysicalRegion { origin: RegionOrigin::Lost, extent: c.region.extent };
        }
        c.redraw = false;
        c.damaged = true;
        self.configured = Some(c);
        proof {
            assert(self@->0 =~= failed_spec(d, anchors));
        }
    }

    /// The steps that sound the display's bell.
    pub fn plan_beep(&self) -> (result: Result<Vec<Step>, RenderError>)
        requires
            self.wf(),
        ensures
            self@ is None ==> result matches Err(RenderError::DisplayNotConfigured),
            self@ is Some ==> (result matches Ok(steps) && steps_view(steps@) == seq![
                StepView::Emit(EmitView::Capability(CapabilityKind::Bell)),
            ]),
    {
        match &self.configured {
            None => Err(RenderError::DisplayNotConfigured),
            Some(_) => {
                let mut steps: Vec<Step> = Vec::new();
                push_step(&mut steps, Emit::Capability(CapabilityKind::Bell));
                proof {
                    assert(steps_view(steps@) =~= seq![StepView::Emit(EmitView::Capability(CapabilityKind::Bell))]);
                }
                Ok(steps)
            },
        }
    }
}

/// Append steps.
fn append_steps(out: &mut Vec<Step>, more: Vec<Step>)
    ensures
        steps_view(final(out)@) == steps_view(old(out)@) + steps_view(more@),
{
    let mut more = more;
    let ghost all = steps_view(more@);
    let mut rest: Vec<Step> = Vec::new();
    while more.len() > 0
        invariant
            all == steps_view(more@) + steps_view(rest@).reverse(),
        decreases more@.len(),
    {
        let ghost m0 = steps_view(more@);
        let ghost r0 = steps_view(rest@);
        let s = more.pop().unwrap();
        rest.push(s);
        proof {
            assert(steps_view(more@) =~= m0.drop_last());
            assert(steps_view(rest@) =~= r0.push(s@));
            assert(steps_view(rest@).reverse() =~= seq![s@] + r0.reverse());
            assert(all =~= steps_view(more@) + steps_view(rest@).reverse());
        }
    }
    let ghost start = steps_view(out@);
    proof {
        assert(all =~= steps_view(rest@).reverse());
    }
    while rest.len() > 0
        invariant
            steps_view(out@) + steps_view(rest@).reverse() == start + all,
        decreases rest@.len(),
    {
        let ghost r0 = steps_view(rest@);
        let ghost o0 = steps_view(out@);
        let s = rest.pop().unwrap();
        out.push(s);
        proof {
            assert(steps_view(rest@) =~= r0.drop_last());
            assert(r0.reverse() =~= seq![s@] + steps_view(rest@).reverse());
            assert(steps_view(out@) =~= o0.push(s@));
            assert(steps_view(out@) + steps_view(rest@).reverse() =~= o0 + r0.reverse());
        }
    }
    proof {
        assert(steps_view(rest@).reverse() =~= Seq::<StepView>::empty());
        assert(steps_view(out@) =~= steps_view(out@) + steps_view(rest@).reverse());
    }
}

/// What ends the line on the screen: the unit that ended the input, drawn
/// as the terminal shows it, and the columns it takes.
#[derive(Debug)]
pub struct FinishEcho {
    bytes: Vec<u8>,
    columns: usize,
}

/// A control scalar: from U+0000 to U+001F and from U+007F to U+009F.
pub open spec fn is_control_scalar(c: char) -> bool {
    (c as u32) <= 0x1f || (0x7f <= (c as u32) && (c as u32) <= 0x9f)
}

/// The letter that stands for a control scalar after a caret: `?` for
/// U+007F, else the scalar 0x40 above it.
pub open spec fn caret_letter(c: char) -> char {
    if c as u32 == 0x7f {
        '?'
    } else {
        ((c as u32) + 0x40) as char
    }
}

/// How a unit that ends the input is echoed: a control scalar as a caret
/// and its letter; another scalar as itself, as wide as the width tables
/// say or one column; a control byte as a caret and its letter, two
/// columns; another byte as itself, one column; a value that is no scalar
/// as the replacement character, one column.
pub open spec fn echo_of(unit: TextUnit) -> (Seq<u8>, nat) {
    match unit {
        TextUnit::Scalar(c) => if is_control_scalar(c) {
            (
                seq![0x5eu8] + vstd::utf8::encode_utf8(seq![caret_letter(c)]),
                sat_add(1, unicode_str_width(seq![caret_letter(c)]) as int) as nat,
            )
        } else {
            (
                vstd::utf8::encode_utf8(seq![c]),
                match unicode_char_width(c) {
                    Some(w) => w as nat,
                    None => 1,
                },
            )
        },
        TextUnit::RawByte(b) => if b < 0x20 || b == 0x7f {
            (
                seq![
                    0x5eu8,
                    if b == 0x7f {
                        0x3fu8
                    } else {
                        (b + 0x40) as u8
                    },
                ],
                2,
            )
        } else {
            (seq![b], 1)
        },
        TextUnit::CompatibilityWide(_) => (vstd::utf8::encode_utf8(seq!['\u{fffd}']), 1),
    }
}

impl View for FinishEcho {
    type V = (Seq<u8>, nat);

    closed spec fn view(&self) -> (Seq<u8>, nat) {
        (self.bytes@, self.columns as nat)
    }
}

fn char_bytes(c: char) -> (bytes: Vec<u8>)
    ensures
        bytes@ == vstd::utf8::encode_utf8(seq![c]),
{
    let text = char_string(c);
    glyph_bytes(&text)
}

impl FinishEcho {
    /// The echo of the unit that ended the input.
    pub fn new(unit: TextUnit) -> (echo: Self)
        ensures
            echo@ == echo_of(unit),
    {
        match unit {
            TextUnit::Scalar(c) => {
                let code = c as u32;
                if code <= 0x1f || (0x7f <= code && code <= 0x9f) {
                    let visual = if code == 0x7f {
                        '?'
                    } else {
                        match char_from_u32(code + 0x40) {
                            Some(v) => v,
                            None => '\u{fffd}',
                        }
                    };
                    proof {
                        assert(visual == caret_letter(c));
                    }
                    let mut bytes: Vec<u8> = vec![0x5eu8];
                    let letter = char_bytes(visual);
                    let mut i: usize = 0;
                    while i < letter.len()
                        invariant
                            i <= letter@.len(),
                            bytes@ == seq![0x5eu8] + letter@.subrange(0, i as int),
                        decreases letter@.len() - i,
                    {
                        bytes.push(letter[i]);
                        i = i + 1;
                        proof {
                            assert(bytes@ =~= seq![0x5eu8] + letter@.subrange(0, i as int));
                        }
                    }
                    proof {
                        assert(letter@.subrange(0, letter@.len() as int) =~= letter@);
                    }
                    let text = char_string(visual);
                    let width = str_width(text.as_str());
                    FinishEcho { bytes, columns: 1usize.saturating_add(width) }
                } else {
                    let columns = match char_width(c) {
                        Some(w) => w,
                        None => 1,
                    };
                    FinishEcho { bytes: char_bytes(c), columns }
                }
            },
            TextUnit::RawByte(b) => {
                if b < 0x20 || b == 0x7f {
                    let letter: u8 = if b == 0x7f {
                        0x3f
                    } else {
                        b + 0x40
                    };
                    let echo = FinishEcho { bytes: vec![0x5eu8, letter], columns: 2 };
                    proof {
                        assert(echo@.0 =~= echo_of(unit).0);
                    }
                    echo
                } else {
                    let echo = FinishEcho { bytes: vec![b], columns: 1 };
                    proof {
                        assert(echo@.0 =~= echo_of(unit).0);
                    }
                    echo
                }
            },
            TextUnit::CompatibilityWide(_) => FinishEcho { bytes: char_bytes('\u{fffd}'), columns: 1 },
        }
    }

    /// The bytes that draw the echo.
    pub fn as_bytes(&self) -> (bytes: &Vec<u8>)
        ensures
            bytes@ == self@.0,
    {
        &self.bytes
    }

    /// The columns the echo takes.
    pub fn columns(&self) -> (columns: usize)
        ensures
            columns == self@.1,
    {
        self.columns
    }
}

/// The rows the editor's output covers: the region owned or the rows last
/// committed, whichever is more.
pub open spec fn occupied_extent(d: DisplayView) -> int {
    larger(d.region.extent as int, d.rows_used as int)
}

/// The rows the output covers once an echo of `columns` columns is drawn
/// from the cursor, wrapping at the right edge.
pub open spec fn echo_extent(d: DisplayView, echo: Option<(Seq<u8>, nat)>) -> int {
    let occupied = occupied_extent(d);
    match echo {
        None => occupied,
        Some(e) => if e.1 == 0 {
            occupied
        } else {
            let last_column = sat_add(d.cursor.column as int, sat_sub(e.1 as int, 1));
            larger(sat_add(sat_add(d.cursor.row as int, last_column / (d.size@.1 as int)), 1), occupied)
        },
    }
}

/// An echo by value.
pub open spec fn echo_view(echo: Option<&FinishEcho>) -> Option<(Seq<u8>, nat)> {
    match echo {
        Some(e) => Some(e@),
        None => None,
    }
}

/// The echo drawn where the cursor was, which a terminal that addresses
/// rows is first moved back to when its rows cannot be trusted or the
/// setup anchored them anew.
pub open spec fn echo_emits(d: DisplayView, echo: Option<(Seq<u8>, nat)>, anchors: bool) -> Seq<EmitView> {
    match echo {
        None => Seq::empty(),
        Some(e) => (if addresses_rows(d.profile) && (anchors || d.damaged) {
            seq![EmitView::Capability(CapabilityKind::RestoreCursor)] + move_emits(
                d.profile,
                Some((0usize, 0usize)),
                d.cursor.row as int,
                d.cursor.column as int,
                row_at(d.rows, d.cursor.row as int),
            )
        } else {
            Seq::empty()
        }) + seq![EmitView::Bytes(e.0)],
    }
}

/// On a terminal that addresses rows, back to the anchor and down to the
/// last row owned.
pub open spec fn descend_emits(p: ProfileView, region: PhysicalRegion) -> Seq<EmitView> {
    if region.origin == RegionOrigin::Saved && addresses_rows(p) {
        seq![EmitView::Capability(CapabilityKind::RestoreCursor)] + repeated(
            CapabilityKind::CursorDown,
            sat_sub(region.extent as int, 1) as nat,
        )
    } else {
        Seq::empty()
    }
}

/// What ends the line on a display whose anchor holds, after the region is
/// set up: the echo, the way down past the region, and a newline.
pub open spec fn finish_emits(d: DisplayView, echo: Option<(Seq<u8>, nat)>, region: PhysicalRegion, anchors: bool) -> Seq<
    EmitView,
> {
    echo_emits(d, echo, anchors) + descend_emits(d.profile, region) + seq![EmitView::Bytes(seq![0x0au8])]
}

/// The steps that end the line below its region on `display`, echoing
/// `echo` first, or why they cannot be planned.
pub open spec fn finish_planned(display: Option<DisplayView>, echo: Option<&FinishEcho>, result: Result<FinishPlan, RenderError>) -> bool {
    match display {
        None => result matches Err(RenderError::DisplayNotConfigured),
        Some(d) => if d.region.origin == RegionOrigin::Lost {
            result matches Err(RenderError::RegionOriginUnavailable)
        } else if !addresses_rows(d.profile) && occupied_extent(d) > 1 {
            result matches Err(RenderError::RegionAddressUnavailable { rows }) && rows == occupied_extent(d)
        } else {
            let needed = larger(echo_extent(d, echo_view(echo)), 1);
            let (setup, region, anchors) = region_steps(d.profile, d.region, needed)->0;
            result matches Ok(plan) && plan.anchors_spec() == anchors && steps_view(plan.steps_spec()) == lifted(
                setup + finish_emits(d, echo_view(echo), region, anchors),
            )
        },
    }
}

/// A display once its line was ended: a blank image, no rows, the cursor
/// in the corner, no region and nothing owed.
pub open spec fn finished_spec(d: DisplayView) -> DisplayView {
    DisplayView {
        cells: blank_cells(d.size),
        rows: Seq::empty(),
        cursor: origin(),
        rows_used: 0,
        region: no_region(),
        redraw: false,
        damaged: false,
        ..d
    }
}

/// The steps that end the line, and whether they anchor the region anew.
pub struct FinishPlan {
    steps: Vec<Step>,
    anchors: bool,
}

impl FinishPlan {
    pub closed spec fn steps_spec(&self) -> Seq<Step> {
        self.steps@
    }

    pub closed spec fn anchors_spec(&self) -> bool {
        self.anchors
    }

    /// The steps to send.
    pub fn steps(&self) -> (steps: &Vec<Step>)
        ensures
            steps@ == self.steps_spec(),
    {
        &self.steps
    }
}

fn echo_extent_of(c: &Configured, echo: Option<&FinishEcho>) -> (extent: usize)
    requires
        c.wf(),
    ensures
        extent == echo_extent(c@, echo_view(echo)),
{
    let occupied = if c.region.extent > c.rows_used {
        c.region.extent
    } else {
        c.rows_used
    };
    let columns = c.screen.size().columns();
    match echo {
        None => occupied,
        Some(e) => if e.columns() == 0 {
            occupied
        } else {
            let last_column = c.cursor.column().saturating_add(e.columns().saturating_sub(1));
            let below = c.cursor.row().saturating_add(last_column / columns).saturating_add(1);
            if below > occupied {
                below
            } else {
                occupied
            }
        },
    }
}

fn append_finish(c: &Configured, out: &mut Vec<Emit>, echo: Option<&FinishEcho>, region: PhysicalRegion, anchors: bool)
    requires
        c.wf(),
    ensures
        emits_view(final(out)@) == emits_view(old(out)@) + finish_emits(c@, echo_view(echo), region, anchors),
{
    let ghost d = c@;
    let addressing = c.profile.has_relative_region_addressing();
    match echo {
        None => {},
        Some(e) => {
            if addressing && (anchors || c.damaged) {
                push_emit(out, Emit::Capability(CapabilityKind::RestoreCursor));
                move_addressed_cursor(
                    &c.profile,
                    out,
                    Some((0, 0)),
                    c.cursor.row(),
                    c.cursor.column(),
                    get_row(&c.rows, c.cursor.row()),
                );
            }
            push_emit(out, Emit::Bytes(copy_slice(e.as_bytes().as_slice())));
        },
    }
    let ghost after_echo = emits_view(out@);
    proof {
        assert(after_echo =~= emits_view(old(out)@) + echo_emits(d, echo_view(echo), anchors));
    }
    if region.origin == RegionOrigin::Saved && addressing {
        push_emit(out, Emit::Capability(CapabilityKind::RestoreCursor));
        append_repeated(out, CapabilityKind::CursorDown, region.extent.saturating_sub(1));
    }
    let ghost after_descend = emits_view(out@);
    proof {
        assert(after_descend =~= after_echo + descend_emits(d.profile, region));
    }
    let mut newline: Vec<u8> = Vec::new();
    newline.push(0x0a);
    proof {
        assert(newline@ =~= seq![0x0au8]);
    }
    push_emit(out, Emit::Bytes(newline));
    proof {
        assert(emits_view(out@) == after_descend.push(EmitView::Bytes(seq![0x0au8])));
        assert(emits_view(out@) =~= emits_view(old(out)@) + finish_emits(d, echo_view(echo), region, anchors));
    }
}

impl State {
    /// Plan what ends the line: the region set up to cover the echo where
    /// the terminal addresses rows, the echo, a return to the region's last
    /// row and a newline. A terminal that does not address rows cannot end
    /// a line that takes more than one row.
    pub fn plan_finish(&self, echo: Option<&FinishEcho>) -> (result: Result<FinishPlan, RenderError>)
        requires
            self.wf(),
        ensures
            finish_planned(self@, echo, result),
    {
        let c = match &self.configured {
            None => {
                return Err(RenderError::DisplayNotConfigured);
            },
            Some(c) => c,
        };
        let ghost d = c@;
        if c.region.origin == RegionOrigin::Lost {
            return Err(RenderError::RegionOriginUnavailable);
        }
        let occupied = if c.region.extent > c.rows_used {
            c.region.extent
        } else {
            c.rows_used
        };
        let addressing = c.profile.has_relative_region_addressing();
        if !addressing && occupied > 1 {
            return Err(RenderError::RegionAddressUnavailable { rows: occupied });
        }
        let extent = echo_extent_of(c, echo);
        let needed = if extent > 1 {
            extent
        } else {
            1
        };
        let (setup, region, anchors) = match plan_region(&c.profile, c.region, needed) {
            None => {
                return Err(RenderError::RegionOriginUnavailable);
            },
            Some(plan) => plan,
        };
        let mut out: Vec<Emit> = setup;
        append_finish(c, &mut out, echo, region, anchors);
        let mut steps: Vec<Step> = Vec::new();
        lift_into(&mut steps, out);
        Ok(FinishPlan { steps, anchors })
    }

    /// Commit an ended line once its steps were sent: a blank image, no
    /// rows, the cursor in the corner, no region and nothing owed.
    pub fn commit_finish(&mut self)
        requires
            old(self).wf(),
            old(self)@ is Some,
        ensures
            final(self).wf(),
            final(self)@ == Some(finished_spec(old(self)@->0)),
    {
        let mut c = self.configured.take().unwrap();
        let ghost d = c@;
        let size = c.screen.size();
        c.screen = blank_screen(size);
        c.rows = Vec::new();
        c.cursor = ScreenPosition { row: 0, column: 0 };
        c.rows_used = 0;
        c.region = PhysicalRegion { origin: RegionOrigin::Unanchored, extent: 0 };
        c.redraw = false;
        c.damaged = false;
        self.configured = Some(c);
        proof {
            assert(self@->0 =~= DisplayView {
                cells: blank_cells(d.size),
                rows: Seq::empty(),
                cursor: origin(),
                rows_used: 0,
                region: no_region(),
                redraw: false,
                damaged: false,
                ..d
            });
        }
    }

    /// Record that sending the steps that end the line failed.
    pub fn finish_failed(&mut self, plan: &FinishPlan)
        requires
            old(self).wf(),
            old(self)@ is Some,
        ensures
            final(self).wf(),
            final(self)@ == Some(failed_spec(old(self)@->0, plan.anchors_spec())),
    {
        self.fail(plan.anchors);
    }
}

proof fn lemma_unchanged_rows_send_nothing(d: Diff, row: int, end: int, cursor: (usize, usize))
    requires
        !d.rewrite,
        d.rows == d.shown,
    ensures
        rows_emits(d, row, end, Some(cursor)) == (Seq::<EmitView>::empty(), Some(cursor)),
    decreases end - row,
{
    if row < end {
        assert(row_start(d, row) is None);
        lemma_unchanged_rows_send_nothing(d, row + 1, end, cursor);
        assert(rows_emits(d, row, end, Some(cursor)).0 =~= Seq::<EmitView>::empty());
    }
}

/// Sending a frame again to a terminal that addresses rows sends nothing
/// when the terminal shows exactly its rows, the cursor is where the frame
/// puts it, and neither a redraw nor distrust of the terminal is owed.
pub proof fn law_unchanged_frame_sends_nothing(d: Diff, rows: int, cursor: (usize, usize))
    requires
        !d.rewrite,
        !d.damaged,
        d.rows == d.shown,
    ensures
        addressed_emits(d, rows, cursor, cursor) == Seq::<EmitView>::empty(),
{
    lemma_unchanged_rows_send_nothing(d, 0, rows, cursor);
    assert(addressed_emits(d, rows, cursor, cursor) =~= Seq::<EmitView>::empty());
}

/// While its anchor holds, the region the editor owns never shrinks: a
/// setup for any number of rows leaves at least the rows owned before.
pub proof fn law_region_never_shrinks(p: ProfileView, region: PhysicalRegion, required: int)
    requires
        region.origin != RegionOrigin::Lost,
        required <= usize::MAX,
    ensures
        ({
            let planned = region_steps(p, region, required);
            let owned = planned->0;
            &&& planned is Some
            &&& owned.1.extent >= region.extent
            &&& owned.1.extent >= required || owned.1 == region
        }),
{
}

/// A failed send leaves what the display is known to show as it was: the
/// image, the rows, the cursor and the rows owned.
pub proof fn law_failed_send_keeps_the_image(d: DisplayView, anchors: bool)
    ensures
        failed_spec(d, anchors).cells == d.cells,
        failed_spec(d, anchors).rows == d.rows,
        failed_spec(d, anchors).cursor == d.cursor,
        failed_spec(d, anchors).region.extent == d.region.extent,
        failed_spec(d, anchors).damaged,
{
}

/// Rendering the same prompts, line and cursor again on a terminal that
/// addresses rows sends nothing once the first frame was committed: the
/// region it set up already covers the frame, and no row has changed.
pub proof fn law_rendering_again_sends_nothing(
    d: DisplayView,
    left: Seq<crate::domain::PromptPart>,
    right: Option<Seq<crate::domain::PromptPart>>,
    line: Seq<TextUnit>,
    cursor: nat,
    first: Frame,
    second: Frame,
)
    requires
        addresses_rows(d.profile),
        d.region.origin != RegionOrigin::Lost,
        frame_matches(first, d.size, left, right, line, cursor),
        frame_matches(second, d.size, left, right, line, cursor),
    ensures
        ({
            let planned = region_steps(d.profile, d.region, first.rows@.len() as int)->0;
            let shown = committed_spec(d, first, planned.1);
            &&& region_steps(shown.profile, shown.region, second.rows@.len() as int) == Some(
                (Seq::<EmitView>::empty(), planned.1, false),
            )
            &&& encoded_steps(shown, second, planned.1, false) == Some(Seq::<StepView>::empty())
        }),
{
    let count = first.rows@.len() as int;
    assert(first.rows.len() == first.rows@.len());
    assert(region_steps(d.profile, d.region, count) is Some);
    let planned = region_steps(d.profile, d.region, count)->0;
    let shown = committed_spec(d, first, planned.1);
    assert(planned.1.origin == RegionOrigin::Saved && planned.1.extent >= count);
    assert(rows_view(first.rows@).len() == first.rows@.len());
    assert(rows_view(second.rows@).len() == second.rows@.len());
    assert(rows_view(second.rows@) == rows_view(first.rows@));
    assert(second.rows@.len() == count);
    assert(shown.region == planned.1);
    assert(region_steps(shown.profile, shown.region, second.rows@.len() as int) == Some(
        (Seq::<EmitView>::empty(), planned.1, false),
    ));
    assert(second.cursor == first.cursor);
    assert(shown.cursor == first.cursor);
    let target = (second.cursor.row, second.cursor.column);
    let diff = Diff {
        profile: shown.profile,
        columns: second.screen@.0@.1 as int,
        rows: rows_view(second.rows@),
        cells: second.screen@.1,
        shown: shown.rows,
        shown_cells: shown.cells,
        rewrite: false,
        damaged: false,
    };
    law_unchanged_frame_sends_nothing(
        diff,
        rows_to_visit(false, planned.1.extent as int, second.rows@.len() as int, shown.rows.len() as int),
        target,
    );
    assert(lifted(Seq::<EmitView>::empty()) =~= Seq::<StepView>::empty());
}

} // verus!
