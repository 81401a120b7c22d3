//! Laying a prompt and an edit line out on a screen of fixed size: glyphs
//! of one or two columns, zero-width scalars joined to the glyph before
//! them, visible escapes for what has no glyph, tab stops every eight
//! columns, wrapping at the right edge, a right prompt where it fits, and
//! the rows kept in view so that the cursor shows.

use vstd::prelude::*;

use crate::domain::screen::{char_string, char_width, string_push, unicode_char_width, CellView};
use crate::domain::message::{hex_char, hex_char_exec, hex_text, push_hex};
use crate::domain::text::char_from_u32;
use crate::domain::{
    Error, Prompt, PromptPart, Screen, ScreenCell, ScreenGlyph, ScreenPosition, ScreenSize, Text, TextIndex,
    TextUnit,
};

verus! {

/// One piece of a laid-out row, in the order it is emitted.
#[derive(Debug)]
pub enum Atom {
    /// A glyph: a scalar and the zero-width scalars that joined it.
    Glyph(String),
    /// Terminal bytes that take no column.
    Literal(Vec<u8>),
    /// Blank columns.
    Spaces(usize),
}

/// An atom by value.
pub ghost enum AtomView {
    Glyph(Seq<char>),
    Literal(Seq<u8>),
    Spaces(nat),
}

impl View for Atom {
    type V = AtomView;

    open spec fn view(&self) -> AtomView {
        match self {
            Atom::Glyph(text) => AtomView::Glyph(text@),
            Atom::Literal(bytes) => AtomView::Literal(bytes@),
            Atom::Spaces(count) => AtomView::Spaces(*count as nat),
        }
    }
}

fn copy_bytes(bytes: &[u8]) -> (copy: Vec<u8>)
    ensures
        copy@ == bytes@,
{
    let mut copy: Vec<u8> = Vec::new();
    let mut i: usize = 0;
    while i < bytes.len()
        invariant
            i <= bytes@.len(),
            copy@ == bytes@.subrange(0, i as int),
        decreases bytes@.len() - i,
    {
        copy.push(bytes[i]);
        i = i + 1;
    }
    assert(copy@ =~= bytes@);
    copy
}

impl Atom {
    /// A copy of this atom.
    pub fn duplicate(&self) -> (copy: Self)
        ensures
            copy@ == self@,
    {
        match self {
            Atom::Glyph(text) => Atom::Glyph(text.clone()),
            Atom::Literal(bytes) => Atom::Literal(copy_bytes(bytes.as_slice())),
            Atom::Spaces(count) => Atom::Spaces(*count),
        }
    }
}

/// One laid-out screen row: what to emit, the cells it fills and how many
/// columns from the left it uses.
#[derive(Debug)]
pub struct Row {
    pub atoms: Vec<Atom>,
    pub cells: Vec<ScreenCell>,
    pub used: usize,
}

/// A row by value.
#[verifier::ext_equal]
pub ghost struct RowView {
    pub atoms: Seq<AtomView>,
    pub cells: Seq<CellView>,
    pub used: nat,
}

impl View for Row {
    type V = RowView;

    open spec fn view(&self) -> RowView {
        RowView {
            atoms: self.atoms@.map_values(|a: Atom| a@),
            cells: self.cells@.map_values(|c: ScreenCell| c@),
            used: self.used as nat,
        }
    }
}

/// Rows by value.
pub open spec fn rows_view(rows: Seq<Row>) -> Seq<RowView> {
    rows.map_values(|r: Row| r@)
}

/// A row of `columns` blank cells with nothing to emit.
pub open spec fn blank_row(columns: nat) -> RowView {
    RowView { atoms: Seq::empty(), cells: Seq::new(columns, |i: int| CellView::Blank), used: 0 }
}

impl Row {
    /// How many columns from the left the row uses.
    pub fn used(&self) -> (used: usize)
        ensures
            used == self@.used,
    {
        self.used
    }

    fn new(columns: usize) -> (row: Self)
        ensures
            row@ == blank_row(columns as nat),
    {
        let mut cells: Vec<ScreenCell> = Vec::new();
        let mut i: usize = 0;
        while i < columns
            invariant
                i <= columns,
                cells@.len() == i,
                forall|j: int| 0 <= j < i ==> cells@[j] == ScreenCell::Blank,
            decreases columns - i,
        {
            cells.push(ScreenCell::Blank);
            i = i + 1;
        }
        let row = Row { atoms: Vec::new(), cells, used: 0 };
        assert(row@ =~= blank_row(columns as nat));
        row
    }
}

/// A laid-out screen: the image, the cursor on it and the rows it shows.
#[derive(Debug)]
pub struct Frame {
    pub screen: Screen,
    pub cursor: ScreenPosition,
    pub rows: Vec<Row>,
}

impl Frame {
    /// How many rows the frame shows.
    pub fn rows_used(&self) -> (count: usize)
        ensures
            count == self.rows@.len(),
    {
        self.rows.len()
    }
}

/// The layout in progress: the finished rows, the row being filled, the
/// column it is filled from, and the cell and atom of the last glyph, to
/// which zero-width scalars join.
#[verifier::ext_equal]
pub ghost struct BuildView {
    pub columns: nat,
    pub done: Seq<RowView>,
    pub current: RowView,
    pub column: nat,
    pub anchor: Option<(nat, nat)>,
}

/// A row `columns` cells wide, using no more of them.
pub open spec fn row_shaped(row: RowView, columns: nat) -> bool {
    row.cells.len() == columns && row.used <= columns
}

/// Every row is `columns` cells wide, the column lies within the row or at
/// its end, and an anchor names a glyph cell and a glyph atom of the row
/// being filled.
pub open spec fn shaped(b: BuildView) -> bool {
    &&& b.columns >= 1
    &&& b.column <= b.columns
    &&& row_shaped(b.current, b.columns)
    &&& forall|i: int| 0 <= i < b.done.len() ==> row_shaped(#[trigger] b.done[i], b.columns)
    &&& (b.anchor matches Some(a) ==> (a.0 < b.columns && a.1 < b.current.atoms.len() && b.current.cells[a.0 as int] is Glyph
        && b.current.atoms[a.1 as int] is Glyph))
}

/// Shaped, with the column inside the row.
pub open spec fn ready(b: BuildView) -> bool {
    shaped(b) && b.column < b.columns
}

/// An empty layout `columns` wide.
pub open spec fn start_build(columns: nat) -> BuildView {
    BuildView { columns, done: Seq::empty(), current: blank_row(columns), column: 0, anchor: None }
}

/// The row being filled is finished and a blank one starts.
pub open spec fn next_row(b: BuildView) -> BuildView {
    BuildView { done: b.done.push(b.current), current: blank_row(b.columns), column: 0, anchor: None, ..b }
}

/// `count` columns skipped at the right edge: padding cells, emitted as
/// spaces.
pub open spec fn pad(b: BuildView, count: nat) -> BuildView {
    if count == 0 {
        b
    } else {
        let col = b.column;
        let row = b.current;
        BuildView {
            current: RowView {
                atoms: row.atoms.push(AtomView::Spaces(count)),
                cells: Seq::new(
                    row.cells.len(),
                    |i: int|
                        if col <= i < col + count {
                            CellView::Padding
                        } else {
                            row.cells[i]
                        },
                ),
                used: col + count,
            },
            column: col + count,
            anchor: None,
            ..b
        }
    }
}

/// A glyph `width` columns wide placed at the column: when it does not fit
/// the rest of the row is padded and it goes on the next row; its first
/// cell holds it, the others continue it, and reaching the right edge
/// starts the next row.
pub open spec fn place_glyph(b: BuildView, c: char, width: nat) -> BuildView {
    let b1 = if b.columns - b.column < width {
        next_row(pad(b, (b.columns - b.column) as nat))
    } else {
        b
    };
    let col = b1.column;
    let row = b1.current;
    let b2 = BuildView {
        current: RowView {
            atoms: row.atoms.push(AtomView::Glyph(seq![c])),
            cells: Seq::new(
                row.cells.len(),
                |i: int|
                    if i == col {
                        CellView::Glyph(seq![c], width)
                    } else if col < i < col + width {
                        CellView::Continuation
                    } else {
                        row.cells[i]
                    },
            ),
            used: if row.used > col + width {
                row.used
            } else {
                col + width
            },
        },
        column: col + width,
        anchor: Some((col, row.atoms.len())),
        ..b1
    };
    if b2.column == b2.columns {
        next_row(b2)
    } else {
        b2
    }
}

/// `count` blank columns, wrapping at the right edge; they end any glyph.
pub open spec fn spaces_spec(b: BuildView, count: nat) -> BuildView
    decreases count,
{
    let b0 = BuildView { anchor: None, ..b };
    if count == 0 || b0.column >= b0.columns {
        b0
    } else {
        let available = (b0.columns - b0.column) as nat;
        let written = if available < count {
            available
        } else {
            count
        };
        let row = b0.current;
        let b1 = BuildView {
            current: RowView {
                atoms: row.atoms.push(AtomView::Spaces(written)),
                used: if row.used > b0.column + written {
                    row.used
                } else {
                    b0.column + written
                },
                ..row
            },
            column: b0.column + written,
            ..b0
        };
        let b2 = if b1.column == b1.columns {
            next_row(b1)
        } else {
            b1
        };
        spaces_spec(b2, (count - written) as nat)
    }
}

/// A zero-width scalar joined to the glyph at the anchor, in its cell and
/// in its atom.
pub open spec fn join_spec(b: BuildView, c: char) -> BuildView {
    let a = b.anchor->0;
    let cell = b.current.cells[a.0 as int];
    let atom = b.current.atoms[a.1 as int];
    BuildView {
        current: RowView {
            cells: b.current.cells.update(a.0 as int, CellView::Glyph(cell->Glyph_0.push(c), cell->Glyph_1)),
            atoms: b.current.atoms.update(a.1 as int, AtomView::Glyph(atom->Glyph_0.push(c))),
            ..b.current
        },
        ..b
    }
}

/// Escape text placed one column per character.
pub open spec fn escape_spec(b: BuildView, s: Seq<char>) -> BuildView
    decreases s.len(),
{
    if s.len() == 0 {
        b
    } else {
        place_glyph(escape_spec(b, s.drop_last()), s.last(), 1)
    }
}

/// `\u{...}` around a value in hexadecimal.
pub open spec fn braced_hex(v: nat) -> Seq<char> {
    seq!['\\', 'u', '{'] + hex_text(v) + seq!['}']
}

/// `\x` and two hexadecimal digits of a byte.
pub open spec fn byte_escape(byte: u8) -> Seq<char> {
    seq!['\\', 'x', hex_char((byte / 16) as int), hex_char((byte % 16) as int)]
}

/// What shows for a scalar that has no glyph of its own: `^` and a letter
/// for a C0 control, `^?` for DEL, and the braced code point otherwise.
pub open spec fn visible_spec(c: char) -> Seq<char> {
    if (c as u32) <= 0x1F {
        seq!['^', ((c as u32) + 0x40) as char]
    } else if (c as u32) == 0x7F {
        seq!['^', '?']
    } else {
        braced_hex(c as u32 as nat)
    }
}

/// A scalar placed by its width: a zero-width one joins the glyph before
/// it where there is one; one without a width, one wider than the row or
/// a zero-width one with nothing to join shows as its escape.
pub open spec fn scalar_spec(b: BuildView, c: char) -> BuildView {
    match unicode_char_width(c) {
        Some(w) => if w == 0 {
            if b.anchor is Some {
                join_spec(b, c)
            } else {
                escape_spec(b, visible_spec(c))
            }
        } else if w <= b.columns {
            place_glyph(b, c, w as nat)
        } else {
            escape_spec(b, visible_spec(c))
        },
        None => escape_spec(b, visible_spec(c)),
    }
}

/// A logical unit placed: a newline starts the next row, a tab moves to the
/// next multiple of eight, raw bytes and non-scalar values show as escapes.
pub open spec fn unit_spec(b: BuildView, unit: TextUnit) -> BuildView {
    match unit {
        TextUnit::Scalar(c) => if c == '\n' {
            next_row(b)
        } else if c == '\t' {
            spaces_spec(b, (8 - b.column % 8) as nat)
        } else {
            scalar_spec(b, c)
        },
        TextUnit::RawByte(byte) => escape_spec(b, byte_escape(byte)),
        TextUnit::CompatibilityWide(w) => escape_spec(b, braced_hex(w@ as nat)),
    }
}

/// Units placed in order.
pub open spec fn text_spec(b: BuildView, units: Seq<TextUnit>) -> BuildView
    decreases units.len(),
{
    if units.len() == 0 {
        b
    } else {
        unit_spec(text_spec(b, units.drop_last()), units.last())
    }
}

/// Prompt parts placed in order; a literal joins the row being filled
/// without taking a column.
pub open spec fn prompt_spec(b: BuildView, parts: Seq<PromptPart>) -> BuildView
    decreases parts.len(),
{
    if parts.len() == 0 {
        b
    } else {
        let b1 = prompt_spec(b, parts.drop_last());
        match parts.last() {
            PromptPart::Text(text) => text_spec(b1, text@),
            PromptPart::Literal(literal) => BuildView {
                current: RowView { atoms: b1.current.atoms.push(AtomView::Literal(literal@)), ..b1.current },
                ..b1
            },
        }
    }
}

/// The rows of a layout, the one being filled last.
pub open spec fn finished(b: BuildView) -> Seq<RowView> {
    b.done.push(b.current)
}

/// Characters a terminal shows as themselves in one column.
pub open spec fn printable_ascii(s: Seq<char>) -> bool {
    forall|i: int| 0 <= i < s.len() ==> 0x20 <= (#[trigger] s[i] as u32) < 0x7F
}

fn braced_hex_text(v: u32) -> (text: Vec<char>)
    ensures
        text@ == braced_hex(v as nat),
        printable_ascii(text@),
{
    let mut text: Vec<char> = vec!['\\', 'u', '{'];
    push_hex(&mut text, v);
    text.push('}');
    proof {
        assert(text@ =~= braced_hex(v as nat));
    }
    text
}

fn byte_escape_text(byte: u8) -> (text: Vec<char>)
    ensures
        text@ == byte_escape(byte),
        printable_ascii(text@),
{
    let high = hex_char_exec((byte / 16) as u32);
    let low = hex_char_exec((byte % 16) as u32);
    let text: Vec<char> = vec!['\\', 'x', high, low];
    proof {
        assert(text@ =~= byte_escape(byte));
    }
    text
}

fn visible_scalar(c: char) -> (text: Vec<char>)
    ensures
        text@ == visible_spec(c),
        printable_ascii(text@),
{
    let code = c as u32;
    if code <= 0x1F {
        let letter = match char_from_u32(code + 0x40) {
            Some(letter) => letter,
            None => {
                proof {
                    assert(false);
                }
                '@'
            },
        };
        let text: Vec<char> = vec!['^', letter];
        proof {
            assert(text@ =~= visible_spec(c));
        }
        text
    } else if code == 0x7F {
        let text: Vec<char> = vec!['^', '?'];
        proof {
            assert(text@ =~= visible_spec(c));
        }
        text
    } else {
        braced_hex_text(code)
    }
}

struct Builder {
    columns: usize,
    done: Vec<Row>,
    current: Row,
    column: usize,
    anchor: Option<(usize, usize)>,
}

impl View for Builder {
    type V = BuildView;

    closed spec fn view(&self) -> BuildView {
        BuildView {
            columns: self.columns as nat,
            done: rows_view(self.done@),
            current: self.current@,
            column: self.column as nat,
            anchor: match self.anchor {
                Some(a) => Some((a.0 as nat, a.1 as nat)),
                None => None,
            },
        }
    }
}

impl Builder {
    fn new(columns: usize) -> (b: Self)
        requires
            columns >= 1,
        ensures
            b@ == start_build(columns as nat),
            ready(b@),
    {
        let b = Builder { columns, done: Vec::new(), current: Row::new(columns), column: 0, anchor: None };
        assert(b@ =~= start_build(columns as nat));
        b
    }

    fn position(&self) -> (position: (usize, usize))
        ensures
            position.0 == self@.done.len(),
            position.1 == self@.column,
    {
        (self.done.len(), self.column)
    }

    fn next_row(&mut self)
        requires
            shaped(old(self)@),
        ensures
            old(self)@.done.len() <= final(self)@.done.len(),
            final(self)@.columns == old(self)@.columns,
            final(self)@ == next_row(old(self)@),
            ready(final(self)@),
    {
        let mut fresh = Row::new(self.columns);
        std::mem::swap(&mut fresh, &mut self.current);
        self.done.push(fresh);
        self.column = 0;
        self.anchor = None;
        proof {
            assert(rows_view(self.done@) =~= rows_view(old(self).done@).push(old(self).current@));
            assert(self@ =~= next_row(old(self)@));
        }
    }

    fn put_padding(&mut self, count: usize)
        requires
            shaped(old(self)@),
            old(self)@.column + count <= old(self)@.columns,
        ensures
            old(self)@.done.len() <= final(self)@.done.len(),
            final(self)@.columns == old(self)@.columns,
            final(self)@ == pad(old(self)@, count as nat),
            shaped(final(self)@),
    {
        if count == 0 {
            return ;
        }
        let col = self.column;
        let ghost row = self.current@;
        let mut i: usize = 0;
        while i < count
            invariant
                self.done == old(self).done,
                self.columns == old(self).columns,
                self.anchor == old(self).anchor,
                col == self.column,
                col + count <= self.columns,
                self.current.cells@.len() == self.columns,
                i <= count,
                forall|j: int|
                    0 <= j < self.columns ==> #[trigger] self.current.cells@[j]@ == if col <= j < col + i {
                        CellView::Padding
                    } else {
                        row.cells[j]
                    },
                self.current@.atoms == row.atoms,
                self.current.used == row.used,
                row.cells.len() == self.columns,
            decreases count - i,
        {
            self.current.cells.set(col + i, ScreenCell::Padding);
            i = i + 1;
        }
        self.current.atoms.push(Atom::Spaces(count));
        self.current.used = col + count;
        self.column = col + count;
        self.anchor = None;
        proof {
            assert(self.current@.cells =~= pad(old(self)@, count as nat).current.cells);
            assert(self.current@.atoms =~= row.atoms.push(AtomView::Spaces(count as nat)));
            assert(self@ =~= pad(old(self)@, count as nat));
        }
    }

    fn put_glyph(&mut self, c: char, width: usize)
        requires
            ready(old(self)@),
            1 <= width <= old(self)@.columns,
            width <= 255,
            unicode_char_width(c) == Some(width),
        ensures
            old(self)@.done.len() <= final(self)@.done.len(),
            final(self)@.columns == old(self)@.columns,
            final(self)@ == place_glyph(old(self)@, c, width as nat),
            ready(final(self)@),
    {
        if self.columns - self.column < width {
            let rest = self.columns - self.column;
            self.put_padding(rest);
            self.next_row();
        }
        let ghost b1 = self@;
        let glyph = match ScreenGlyph::from_scalar(c) {
            Some(glyph) => glyph,
            None => {
                proof {
                    assert(false);
                }
                return ;
            },
        };
        let col = self.column;
        let ghost row = self.current@;
        let ghost done = self.done;
        let ghost anchor = self.anchor;
        self.current.cells.set(col, ScreenCell::Glyph(glyph));
        let mut k: usize = 1;
        while k < width
            invariant
                self.done == done,
                self.anchor == anchor,
                self.columns == old(self).columns,
                col == self.column,
                col + width <= self.columns,
                self.current.cells@.len() == self.columns,
                1 <= k <= width,
                row.cells.len() == self.columns,
                forall|j: int|
                    0 <= j < self.columns ==> #[trigger] self.current.cells@[j]@ == if j == col {
                        CellView::Glyph(seq![c], width as nat)
                    } else if col < j < col + k {
                        CellView::Continuation
                    } else {
                        row.cells[j]
                    },
                self.current@.atoms == row.atoms,
                self.current.used == row.used,
            decreases width - k,
        {
            self.current.cells.set(col + k, ScreenCell::Continuation);
            k = k + 1;
        }
        let atom = self.current.atoms.len();
        self.current.atoms.push(Atom::Glyph(char_string(c)));
        if self.current.used < col + width {
            self.current.used = col + width;
        }
        self.anchor = Some((col, atom));
        self.column = col + width;
        proof {
            let expected = place_glyph(old(self)@, c, width as nat);
            assert(self.current@.cells =~= Seq::new(
                row.cells.len(),
                |i: int|
                    if i == col {
                        CellView::Glyph(seq![c], width as nat)
                    } else if col < i < col + width {
                        CellView::Continuation
                    } else {
                        row.cells[i]
                    },
            ));
            assert(self.current@.atoms =~= row.atoms.push(AtomView::Glyph(seq![c])));
        }
        if self.column == self.columns {
            self.next_row();
        }
        proof {
            assert(self@ =~= place_glyph(old(self)@, c, width as nat));
        }
    }

    fn append_to_anchor(&mut self, c: char) -> (joined: bool)
        requires
            ready(old(self)@),
            unicode_char_width(c) == Some(0usize),
        ensures
            old(self)@.done.len() <= final(self)@.done.len(),
            final(self)@.columns == old(self)@.columns,
            joined == (old(self)@.anchor is Some),
            joined ==> final(self)@ == join_spec(old(self)@, c),
            !joined ==> final(self)@ == old(self)@,
            ready(final(self)@),
    {
        match self.anchor {
            None => false,
            Some(anchor) => {
                let col = anchor.0;
                let index = anchor.1;
                let ghost before = self@;
                let cell = self.current.cells[col].duplicate();
                let mut glyph = match cell {
                    ScreenCell::Glyph(glyph) => glyph,
                    _ => {
                        proof {
                            assert(false);
                        }
                        return false;
                    },
                };
                let pushed = glyph.push_zero_width(c);
                self.current.cells.set(col, ScreenCell::Glyph(glyph));
                let mut text = match &self.current.atoms[index] {
                    Atom::Glyph(text) => text.clone(),
                    _ => {
                        proof {
                            assert(false);
                        }
                        return false;
                    },
                };
                string_push(&mut text, c);
                self.current.atoms.set(index, Atom::Glyph(text));
                proof {
                    let expected = join_spec(before, c);
                    assert(self.current@.cells =~= expected.current.cells);
                    assert(self.current@.atoms =~= expected.current.atoms);
                    assert(self@ =~= expected);
                }
                true
            },
        }
    }

    fn put_escape(&mut self, s: &[char])
        requires
            ready(old(self)@),
            printable_ascii(s@),
        ensures
            old(self)@.done.len() <= final(self)@.done.len(),
            final(self)@.columns == old(self)@.columns,
            final(self)@ == escape_spec(old(self)@, s@),
            ready(final(self)@),
    {
        let mut i: usize = 0;
        while i < s.len()
            invariant
                i <= s@.len(),
                printable_ascii(s@),
                ready(self@),
                old(self)@.done.len() <= self@.done.len(),
                self@.columns == old(self)@.columns,
                self@ == escape_spec(old(self)@, s@.subrange(0, i as int)),
            decreases s@.len() - i,
        {
            let ch = s[i];
            let width = char_width(ch);
            proof {
                assert(0x20 <= (s@[i as int] as u32) < 0x7F);
                assert(s@.subrange(0, i + 1).drop_last() =~= s@.subrange(0, i as int));
            }
            self.put_glyph(ch, 1);
            i = i + 1;
        }
        proof {
            assert(s@.subrange(0, s@.len() as int) =~= s@);
        }
    }

    fn put_spaces(&mut self, count: usize)
        requires
            ready(old(self)@),
        ensures
            old(self)@.done.len() <= final(self)@.done.len(),
            final(self)@.columns == old(self)@.columns,
            final(self)@ == spaces_spec(old(self)@, count as nat),
            ready(final(self)@),
    {
        self.anchor = None;
        proof {
            assert(spaces_spec(self@, count as nat) == spaces_spec(old(self)@, count as nat));
        }
        let mut left = count;
        while left > 0
            invariant
                ready(self@),
                self@.anchor is None,
                old(self)@.done.len() <= self@.done.len(),
                self@.columns == old(self)@.columns,
                spaces_spec(self@, left as nat) == spaces_spec(old(self)@, count as nat),
            decreases left,
        {
            let ghost before = self@;
            let available = self.columns - self.column;
            let written = if available < left {
                available
            } else {
                left
            };
            self.current.atoms.push(Atom::Spaces(written));
            if self.current.used < self.column + written {
                self.current.used = self.column + written;
            }
            self.column = self.column + written;
            left = left - written;
            proof {
                assert(self.current@.atoms =~= before.current.atoms.push(AtomView::Spaces(written as nat)));
            }
            if self.column == self.columns {
                self.next_row();
            }
        }
    }

    fn put_scalar(&mut self, c: char)
        requires
            ready(old(self)@),
        ensures
            old(self)@.done.len() <= final(self)@.done.len(),
            final(self)@.columns == old(self)@.columns,
            final(self)@ == scalar_spec(old(self)@, c),
            ready(final(self)@),
    {
        match char_width(c) {
            Some(width) => {
                if width == 0 {
                    if !self.append_to_anchor(c) {
                        let visible = visible_scalar(c);
                        self.put_escape(visible.as_slice());
                    }
                } else if width <= self.columns {
                    self.put_glyph(c, width);
                } else {
                    let visible = visible_scalar(c);
                    self.put_escape(visible.as_slice());
                }
            },
            None => {
                let visible = visible_scalar(c);
                self.put_escape(visible.as_slice());
            },
        }
    }

    fn put_unit(&mut self, unit: TextUnit)
        requires
            ready(old(self)@),
        ensures
            old(self)@.done.len() <= final(self)@.done.len(),
            final(self)@.columns == old(self)@.columns,
            final(self)@ == unit_spec(old(self)@, unit),
            ready(final(self)@),
    {
        match unit {
            TextUnit::Scalar(c) => {
                if c == '\n' {
                    self.next_row();
                } else if c == '\t' {
                    let spaces = 8 - self.column % 8;
                    self.put_spaces(spaces);
                } else {
                    self.put_scalar(c);
                }
            },
            TextUnit::RawByte(byte) => {
                let visible = byte_escape_text(byte);
                self.put_escape(visible.as_slice());
            },
            TextUnit::CompatibilityWide(wide) => {
                let visible = braced_hex_text(wide.get());
                self.put_escape(visible.as_slice());
            },
        }
    }

    fn put_text(&mut self, units: &[TextUnit])
        requires
            ready(old(self)@),
        ensures
            old(self)@.done.len() <= final(self)@.done.len(),
            final(self)@.columns == old(self)@.columns,
            final(self)@ == text_spec(old(self)@, units@),
            ready(final(self)@),
    {
        let mut i: usize = 0;
        while i < units.len()
            invariant
                i <= units@.len(),
                ready(self@),
                old(self)@.done.len() <= self@.done.len(),
                self@.columns == old(self)@.columns,
                self@ == text_spec(old(self)@, units@.subrange(0, i as int)),
            decreases units@.len() - i,
        {
            proof {
                assert(units@.subrange(0, i + 1).drop_last() =~= units@.subrange(0, i as int));
            }
            self.put_unit(units[i]);
            i = i + 1;
        }
        proof {
            assert(units@.subrange(0, units@.len() as int) =~= units@);
        }
    }

    fn put_prompt(&mut self, prompt: &Prompt)
        requires
            ready(old(self)@),
        ensures
            old(self)@.done.len() <= final(self)@.done.len(),
            final(self)@.columns == old(self)@.columns,
            final(self)@ == prompt_spec(old(self)@, prompt@),
            ready(final(self)@),
    {
        let parts = prompt.parts();
        let mut i: usize = 0;
        while i < parts.len()
            invariant
                parts@ == prompt@,
                i <= parts@.len(),
                ready(self@),
                old(self)@.done.len() <= self@.done.len(),
                self@.columns == old(self)@.columns,
                self@ == prompt_spec(old(self)@, parts@.subrange(0, i as int)),
            decreases parts@.len() - i,
        {
            proof {
                assert(parts@.subrange(0, i + 1).drop_last() =~= parts@.subrange(0, i as int));
            }
            match &parts[i] {
                PromptPart::Text(text) => self.put_text(text.as_units()),
                PromptPart::Literal(literal) => {
                    let ghost before = self@;
                    self.current.atoms.push(Atom::Literal(copy_bytes(literal.as_bytes())));
                    proof {
                        assert(self.current@.atoms =~= before.current.atoms.push(AtomView::Literal(literal@)));
                        assert(self@ =~= BuildView {
                            current: RowView { atoms: before.current.atoms.push(AtomView::Literal(literal@)), ..before.current },
                            ..before
                        });
                    }
                },
            }
            i = i + 1;
        }
        proof {
            assert(parts@.subrange(0, parts@.len() as int) =~= parts@);
        }
    }

    fn finish(self) -> (rows: Vec<Row>)
        ensures
            rows_view(rows@) == finished(self@),
    {
        let ghost view = self@;
        let mut rows = self.done;
        rows.push(self.current);
        proof {
            assert(rows_view(rows@) =~= finished(view));
        }
        rows
    }
}


/// `other` laid into `row` from `column`: spaces pad the row up to there,
/// its atoms follow the row's and its used cells replace the row's.
pub open spec fn append_at(row: RowView, column: nat, other: RowView) -> RowView {
    let padded = if column > row.used {
        RowView { atoms: row.atoms.push(AtomView::Spaces((column - row.used) as nat)), used: column, ..row }
    } else {
        row
    };
    RowView {
        atoms: padded.atoms + other.atoms,
        cells: Seq::new(
            padded.cells.len(),
            |i: int|
                if column <= i < column + other.used {
                    other.cells[i - column]
                } else {
                    padded.cells[i]
                },
        ),
        used: column + other.used,
    }
}

/// The rows with a right prompt: a prompt that needs more than one row is
/// dropped; one that takes no column only adds its atoms to the first row;
/// otherwise it ends at the right edge of the first row when it does not
/// meet what the row already uses, and is dropped when it would.
pub open spec fn with_right(rows: Seq<RowView>, columns: nat, right: Seq<PromptPart>) -> Seq<RowView> {
    let r = prompt_spec(start_build(columns), right);
    let width = r.current.used;
    if r.done.len() != 0 {
        rows
    } else if width == 0 {
        rows.update(0, RowView { atoms: rows[0].atoms + r.current.atoms, ..rows[0] })
    } else if rows[0].used >= columns - width {
        rows
    } else {
        rows.update(0, append_at(rows[0], (columns - width) as nat, r.current))
    }
}

/// Every row is `columns` cells wide and uses no more of them.
pub open spec fn all_shaped(rows: Seq<RowView>, columns: nat) -> bool {
    forall|i: int| 0 <= i < rows.len() ==> row_shaped(#[trigger] rows[i], columns)
}

fn append_row_at(row: &mut Row, column: usize, other: Row)
    requires
        row_shaped(old(row)@, old(row)@.cells.len()),
        other@.used <= other@.cells.len(),
        column + other@.used <= old(row)@.cells.len(),
    ensures
        final(row)@ == append_at(old(row)@, column as nat, other@),
{
    let ghost start = row@;
    if column > row.used {
        row.atoms.push(Atom::Spaces(column - row.used));
        row.used = column;
    }
    let ghost padded = row@;
    let total = row.cells.len();
    let mut other = other;
    let ghost other_view = other@;
    row.atoms.append(&mut other.atoms);
    let n = other.used;
    let mut k: usize = 0;
    while k < n
        invariant
            n == other_view.used,
            k <= n,
            total == row.cells@.len(),
            column + n <= total,
            other.cells@.len() == other_view.cells.len(),
            other_view.used <= other_view.cells.len(),
            forall|j: int| 0 <= j < other.cells@.len() ==> #[trigger] other.cells@[j]@ == other_view.cells[j],
            row.cells@.len() == padded.cells.len(),
            row@.atoms == padded.atoms + other_view.atoms,
            row.used == padded.used,
            forall|j: int|
                0 <= j < row.cells@.len() ==> #[trigger] row.cells@[j]@ == if column <= j < column + k {
                    other_view.cells[j - column]
                } else {
                    padded.cells[j]
                },
        decreases n - k,
    {
        let cell = other.cells[k].duplicate();
        row.cells.set(column + k, cell);
        k = k + 1;
    }
    row.used = column + n;
    proof {
        assert(row@.atoms =~= padded.atoms + other_view.atoms);
        assert(row@ =~= append_at(start, column as nat, other_view));
    }
}

fn add_right_prompt(rows: &mut Vec<Row>, columns: usize, prompt: &Prompt)
    requires
        columns >= 1,
        old(rows)@.len() >= 1,
        all_shaped(rows_view(old(rows)@), columns as nat),
    ensures
        rows_view(final(rows)@) == with_right(rows_view(old(rows)@), columns as nat, prompt@),
        all_shaped(rows_view(final(rows)@), columns as nat),
        final(rows)@.len() == old(rows)@.len(),
{
    let mut right = Builder::new(columns);
    right.put_prompt(prompt);
    let ghost r = right@;
    let mut right_rows = right.finish();
    proof {
        assert(r == prompt_spec(start_build(columns as nat), prompt@));
        assert(rows_view(right_rows@).len() == right_rows@.len());
        assert(right_rows@.len() == r.done.len() + 1);
    }
    if right_rows.len() != 1 {
        return ;
    }
    let ghost right_view = rows_view(right_rows@);
    let other = right_rows.remove(0);
    proof {
        assert(right_view[0] == other@);
        assert(finished(r)[0] == r.current);
        assert(other@ == r.current);
        assert(r.columns == columns);
    }
    let width = other.used;
    let mut first = rows.remove(0);
    let ghost before = rows_view(old(rows)@);
    if width == 0 {
        let mut other = other;
        first.atoms.append(&mut other.atoms);
        rows.insert(0, first);
        proof {
            assert(first@.atoms =~= before[0].atoms + r.current.atoms);
            assert(rows_view(rows@) =~= before.update(0, RowView { atoms: before[0].atoms + r.current.atoms, ..before[0] }));
        }
        return ;
    }
    let start = columns - width;
    if first.used >= start {
        rows.insert(0, first);
        proof {
            assert(rows_view(rows@) =~= before);
        }
        return ;
    }
    append_row_at(&mut first, start, other);
    rows.insert(0, first);
    proof {
        assert(rows_view(rows@) =~= before.update(0, append_at(before[0], start as nat, r.current)));
    }
}

/// The first row shown: the cursor's row is the last one when it lies
/// beyond the screen.
pub open spec fn view_start(screen_rows: nat, cursor_row: nat) -> nat {
    if cursor_row + 1 > screen_rows {
        (cursor_row + 1 - screen_rows) as nat
    } else {
        0
    }
}

/// The literal atoms among `atoms`, in order.
pub open spec fn literal_atoms(atoms: Seq<AtomView>) -> Seq<AtomView>
    decreases atoms.len(),
{
    if atoms.len() == 0 {
        Seq::empty()
    } else if atoms.last() is Literal {
        literal_atoms(atoms.drop_last()).push(atoms.last())
    } else {
        literal_atoms(atoms.drop_last())
    }
}

/// The literal atoms of `rows`, in order.
pub open spec fn literals_of(rows: Seq<RowView>) -> Seq<AtomView>
    decreases rows.len(),
{
    if rows.len() == 0 {
        Seq::empty()
    } else {
        literals_of(rows.drop_last()) + literal_atoms(rows.last().atoms)
    }
}

/// The rows shown on a screen of `screen_rows` rows: as many as fit from
/// the first row shown, and the literals of the rows scrolled away emitted
/// before the first of them.
pub open spec fn visible_rows(rows: Seq<RowView>, screen_rows: nat, cursor_row: nat) -> Seq<RowView> {
    let start = view_start(screen_rows, cursor_row);
    let end = if start + screen_rows < rows.len() {
        start + screen_rows
    } else {
        rows.len() as nat
    };
    let shown = rows.subrange(start as int, end as int);
    if start > 0 {
        shown.update(0, RowView { atoms: literals_of(rows.subrange(0, start as int)) + shown[0].atoms, ..shown[0] })
    } else {
        shown
    }
}

/// The cell at a row and column of a row-major image.
pub open spec fn cell_at(cells: Seq<ScreenCell>, columns: nat, row: int, column: int) -> CellView {
    cells[row * columns + column]@
}

/// The image shows the rows' cells from its top, and blanks below them.
pub open spec fn shows(cells: Seq<ScreenCell>, screen_rows: nat, columns: nat, rows: Seq<RowView>) -> bool {
    &&& cells.len() == screen_rows * columns
    &&& forall|r: int, c: int|
        0 <= r < screen_rows && 0 <= c < columns ==> #[trigger] cell_at(cells, columns, r, c) == if r < rows.len() {
            rows[r].cells[c]
        } else {
            CellView::Blank
        }
}

proof fn lemma_offset(r1: int, c1: int, r2: int, c2: int, columns: int)
    requires
        0 <= r1,
        0 <= r2,
        0 <= c1 < columns,
        0 <= c2 < columns,
        r1 != r2 || c1 != c2,
    ensures
        r1 * columns + c1 != r2 * columns + c2,
{
    if r1 < r2 {
        assert(r1 * columns + c1 < r2 * columns + c2) by (nonlinear_arith)
            requires
                0 <= r1 < r2,
                0 <= c1 < columns,
                0 <= c2,
        ;
    } else if r2 < r1 {
        assert(r2 * columns + c2 < r1 * columns + c1) by (nonlinear_arith)
            requires
                0 <= r2 < r1,
                0 <= c2 < columns,
                0 <= c1,
        ;
    }
}

proof fn lemma_offset_bound(r: int, c: int, rows: int, columns: int)
    requires
        0 <= r < rows,
        0 <= c < columns,
    ensures
        0 <= r * columns + c < rows * columns,
{
    assert(0 <= r * columns + c < rows * columns) by (nonlinear_arith)
        requires
            0 <= r < rows,
            0 <= c < columns,
    ;
}

fn literals_in(rows: &Vec<Row>) -> (atoms: Vec<Atom>)
    ensures
        atoms@.map_values(|a: Atom| a@) == literals_of(rows_view(rows@)),
{
    let mut atoms: Vec<Atom> = Vec::new();
    let mut i: usize = 0;
    while i < rows.len()
        invariant
            i <= rows@.len(),
            atoms@.map_values(|a: Atom| a@) == literals_of(rows_view(rows@).subrange(0, i as int)),
        decreases rows@.len() - i,
    {
        let row = &rows[i];
        let ghost base = atoms@.map_values(|a: Atom| a@);
        let mut j: usize = 0;
        while j < row.atoms.len()
            invariant
                j <= row.atoms@.len(),
                atoms@.map_values(|a: Atom| a@) == base + literal_atoms(row@.atoms.subrange(0, j as int)),
            decreases row.atoms@.len() - j,
        {
            let ghost before = atoms@;
            proof {
                assert(row@.atoms.subrange(0, j + 1).drop_last() =~= row@.atoms.subrange(0, j as int));
            }
            match &row.atoms[j] {
                Atom::Literal(bytes) => {
                    atoms.push(Atom::Literal(copy_bytes(bytes.as_slice())));
                    proof {
                        assert(atoms@.map_values(|a: Atom| a@) =~= before.map_values(|a: Atom| a@).push(row@.atoms[j as int]));
                    }
                },
                _ => {},
            }
            j = j + 1;
        }
        proof {
            assert(row@.atoms.subrange(0, row@.atoms.len() as int) =~= row@.atoms);
            let prefix = rows_view(rows@).subrange(0, i + 1);
            assert(prefix.drop_last() =~= rows_view(rows@).subrange(0, i as int));
            assert(prefix.last() == row@);
        }
        i = i + 1;
    }
    proof {
        assert(rows_view(rows@).subrange(0, rows@.len() as int) =~= rows_view(rows@));
    }
    atoms
}

fn viewport(size: ScreenSize, rows: Vec<Row>, cursor: (usize, usize)) -> (result: Result<Frame, Error>)
    requires
        cursor.0 < rows@.len(),
        cursor.1 < size@.1,
        all_shaped(rows_view(rows@), size@.1),
    ensures
        result matches Ok(frame) && ({
            let visible = visible_rows(rows_view(rows@), size@.0, cursor.0 as nat);
            &&& rows_view(frame.rows@) == visible
            &&& frame.cursor == ScreenPosition {
                row: (cursor.0 - view_start(size@.0, cursor.0 as nat)) as usize,
                column: cursor.1,
            }
            &&& frame.screen@.0 == size
            &&& frame.screen.wf()
            &&& shows(frame.screen@.1, size@.0, size@.1, visible)
        }),
{
    let screen_rows = size.rows();
    let columns = size.columns();
    let count = rows.len();
    let start = if cursor.0 + 1 > screen_rows {
        cursor.0 + 1 - screen_rows
    } else {
        0
    };
    let end = if start + screen_rows < rows.len() {
        start + screen_rows
    } else {
        rows.len()
    };
    let ghost all = rows_view(rows@);
    let mut rows = rows;
    let mut visible = rows.split_off(start);
    visible.truncate(end - start);
    proof {
        assert(rows_view(visible@) =~= all.subrange(start as int, end as int));
        assert(rows_view(rows@) =~= all.subrange(0, start as int));
    }
    if start > 0 {
        let mut atoms = literals_in(&rows);
        let mut first = visible.remove(0);
        let ghost first_view = first@;
        atoms.append(&mut first.atoms);
        first.atoms = atoms;
        visible.insert(0, first);
        proof {
            let shown = all.subrange(start as int, end as int);
            assert(first.atoms@.map_values(|a: Atom| a@) =~= literals_of(all.subrange(0, start as int)) + first_view.atoms);
            assert(rows_view(visible@) =~= shown.update(
                0,
                RowView { atoms: literals_of(all.subrange(0, start as int)) + shown[0].atoms, ..shown[0] },
            ));
        }
    }
    let ghost shown = rows_view(visible@);
    assert(shown == visible_rows(all, size@.0, cursor.0 as nat));
    let mut screen = Screen::new(size);
    proof {
        assert forall|rr: int, cc: int|
            0 <= rr < screen_rows && 0 <= cc < columns implies #[trigger] cell_at(screen@.1, columns as nat, rr, cc)
                == CellView::Blank by {
            lemma_offset_bound(rr, cc, screen_rows as int, columns as int);
        }
    }
    let mut r: usize = 0;
    while r < visible.len()
        invariant
            rows_view(visible@) == shown,
            shown.len() <= screen_rows,
            screen_rows == size@.0,
            columns == size@.1,
            all_shaped(shown, columns as nat),
            r <= shown.len(),
            screen.wf(),
            screen@.0 == size,
            screen@.1.len() == screen_rows * columns,
            forall|rr: int, cc: int|
                0 <= rr < screen_rows && 0 <= cc < columns ==> #[trigger] cell_at(screen@.1, columns as nat, rr, cc)
                    == if rr < r {
                    shown[rr].cells[cc]
                } else {
                    CellView::Blank
                },
        decreases shown.len() - r,
    {
        let mut c: usize = 0;
        while c < columns
            invariant
                rows_view(visible@) == shown,
                shown.len() <= screen_rows,
                screen_rows == size@.0,
                columns == size@.1,
                all_shaped(shown, columns as nat),
                r < shown.len(),
                c <= columns,
                screen.wf(),
                screen@.0 == size,
                screen@.1.len() == screen_rows * columns,
                forall|rr: int, cc: int|
                    0 <= rr < screen_rows && 0 <= cc < columns ==> #[trigger] cell_at(screen@.1, columns as nat, rr, cc)
                        == if rr < r || (rr == r && cc < c) {
                        shown[rr].cells[cc]
                    } else {
                        CellView::Blank
                    },
            decreases columns - c,
        {
            let position = size.position(r, c)?;
            proof {
                assert(row_shaped(shown[r as int], columns as nat));
                assert(shown[r as int] == visible@[r as int]@);
            }
            let cell = visible[r].cells[c].duplicate();
            let ghost before = screen@.1;
            screen.set(position, cell)?;
            proof {
                lemma_offset_bound(r as int, c as int, screen_rows as int, columns as int);
                assert forall|rr: int, cc: int|
                    0 <= rr < screen_rows && 0 <= cc < columns implies #[trigger] cell_at(screen@.1, columns as nat, rr, cc)
                        == if rr < r || (rr == r && cc < c + 1) {
                        shown[rr].cells[cc]
                    } else {
                        CellView::Blank
                    } by {
                    lemma_offset_bound(rr, cc, screen_rows as int, columns as int);
                    if rr != r || cc != c {
                        lemma_offset(rr, cc, r as int, c as int, columns as int);
                        assert(cell_at(screen@.1, columns as nat, rr, cc) == cell_at(before, columns as nat, rr, cc));
                    }
                }
            }
            c = c + 1;
        }
        r = r + 1;
    }
    let position = size.position(cursor.0 - start, cursor.1)?;
    Ok(Frame { screen, cursor: position, rows: visible })
}

/// The rows of a prompt, a line and a right prompt laid out `columns` wide,
/// and the row and column of the cursor among them.
pub open spec fn laid_out(
    columns: nat,
    left: Seq<PromptPart>,
    right: Option<Seq<PromptPart>>,
    line: Seq<TextUnit>,
    cursor: nat,
) -> (Seq<RowView>, (nat, nat)) {
    let b0 = prompt_spec(start_build(columns), left);
    let at = text_spec(b0, line.subrange(0, cursor as int));
    let rows = finished(text_spec(b0, line));
    (
        match right {
            Some(parts) => with_right(rows, columns, parts),
            None => rows,
        },
        (at.done.len(), at.column),
    )
}

/// A right prompt by value.
pub open spec fn right_view(right: Option<&Prompt>) -> Option<Seq<PromptPart>> {
    match right {
        Some(prompt) => Some(prompt@),
        None => None,
    }
}

fn lay_out(columns: usize, left: &Prompt, right: Option<&Prompt>, line: &Text, target: usize) -> (laid: (
    Vec<Row>,
    (usize, usize),
))
    requires
        columns >= 1,
        target <= line@.len(),
    ensures
        ({
            let (rows, at) = laid_out(columns as nat, left@, right_view(right), line@, target as nat);
            &&& rows_view(laid.0@) == rows
            &&& laid.1.0 == at.0
            &&& laid.1.1 == at.1
            &&& laid.1.0 < laid.0@.len()
            &&& laid.1.1 < columns
            &&& all_shaped(rows, columns as nat)
        }),
{
    let mut builder = Builder::new(columns);
    builder.put_prompt(left);
    let ghost b0 = builder@;
    let units = line.as_units();
    let mut position: Option<(usize, usize)> = None;
    let mut i: usize = 0;
    while i < units.len()
        invariant
            units@ == line@,
            target <= units@.len(),
            i <= units@.len(),
            ready(builder@),
            builder@.columns == columns,
            builder@ == text_spec(b0, units@.subrange(0, i as int)),
            i <= target ==> position is None,
            i > target ==> (position matches Some(p) && p.0 == text_spec(b0, units@.subrange(0, target as int)).done.len()
                && p.1 == text_spec(b0, units@.subrange(0, target as int)).column && p.0 <= builder@.done.len()
                && p.1 < columns),
        decreases units@.len() - i,
    {
        if i == target {
            position = Some(builder.position());
        }
        proof {
            assert(units@.subrange(0, i + 1).drop_last() =~= units@.subrange(0, i as int));
        }
        builder.put_unit(units[i]);
        i = i + 1;
    }
    proof {
        assert(units@.subrange(0, units@.len() as int) =~= units@);
    }
    let at = match position {
        Some(p) => p,
        None => builder.position(),
    };
    let ghost end = builder@;
    let mut rows = builder.finish();
    proof {
        assert(rows_view(rows@).len() == rows@.len());
        assert forall|k: int| 0 <= k < finished(end).len() implies row_shaped(#[trigger] finished(end)[k], columns as nat) by {
            if k < end.done.len() {
                assert(row_shaped(end.done[k], columns as nat));
            }
        }
    }
    match right {
        Some(prompt) => add_right_prompt(&mut rows, columns, prompt),
        None => {},
    }
    (rows, at)
}

/// Lay out `left`, then `line` with the cursor at `cursor`, then `right`,
/// on a screen of `size`; an error when the cursor lies past the line.
pub fn build(size: ScreenSize, left: &Prompt, right: Option<&Prompt>, line: &Text, cursor: TextIndex) -> (result:
    Result<Frame, Error>)
    ensures
        cursor@ > line@.len() ==> result == Err::<Frame, Error>(
            Error::TextIndexOutOfBounds { index: cursor@ as usize, len: line@.len() as usize },
        ),
        cursor@ <= line@.len() ==> (result matches Ok(frame) && ({
            let (rows, at) = laid_out(size@.1, left@, right_view(right), line@, cursor@ as nat);
            let visible = visible_rows(rows, size@.0, at.0);
            &&& rows_view(frame.rows@) == visible
            &&& frame.cursor == ScreenPosition {
                row: (at.0 - view_start(size@.0, at.0)) as usize,
                column: at.1 as usize,
            }
            &&& frame.screen@.0 == size
            &&& frame.screen.wf()
            &&& shows(frame.screen@.1, size@.0, size@.1, visible)
            &&& 1 <= frame.rows@.len() <= size@.0
            &&& frame.cursor.row < frame.rows@.len()
            &&& frame.cursor.column < size@.1
        })),
{
    let target = cursor.get();
    line.index(target)?;
    let columns = size.columns();
    let screen_rows = size.rows();
    let (rows, at) = lay_out(columns, left, right, line, target);
    let ghost laid = rows_view(rows@);
    let result = viewport(size, rows, at);
    proof {
        law_cursor_stays_on_screen(laid, size@.0, at.0 as nat);
        if result is Ok {
            assert(rows_view(result->Ok_0.rows@).len() == result->Ok_0.rows@.len());
        }
    }
    result
}

/// The cursor's row is on the screen: it is among the rows shown, and no
/// more rows are shown than the screen has.
pub proof fn law_cursor_stays_on_screen(rows: Seq<RowView>, screen_rows: nat, cursor_row: nat)
    requires
        screen_rows >= 1,
        cursor_row < rows.len(),
    ensures
        cursor_row - view_start(screen_rows, cursor_row) < screen_rows,
        cursor_row - view_start(screen_rows, cursor_row) < visible_rows(rows, screen_rows, cursor_row).len(),
        visible_rows(rows, screen_rows, cursor_row).len() <= screen_rows,
{
}

} // verus!
