//! Physical screen images: glyphs, cells, checked dimensions and positions.

use super::Error;
use vstd::prelude::*;

verus! {

/// The number of terminal columns the Unicode width tables give a scalar;
/// `None` for control characters.
pub uninterp spec fn unicode_char_width(c: char) -> Option<usize>;

/// `UnicodeWidthChar::width` from the `unicode-width` crate: control
/// characters (below U+0020 and from U+007F to U+009F) have no width,
/// printable ASCII is one column wide, and every width comes from a byte.
#[verifier::external_body]
pub(crate) fn char_width(c: char) -> (width: Option<usize>)
    ensures
        width == unicode_char_width(c),
        (c as u32) < 0x20 ==> width is None,
        0x20 <= (c as u32) < 0x7F ==> width == Some(1usize),
        0x7F <= (c as u32) < 0xA0 ==> width is None,
        width matches Some(w) ==> w <= 255,
{
    unicode_width::UnicodeWidthChar::width(c)
}

/// The number of terminal columns the Unicode width tables give a string.
pub uninterp spec fn unicode_str_width(text: Seq<char>) -> usize;

/// `UnicodeWidthStr::width` from the `unicode-width` crate: the columns a
/// string takes. Its result is named; nothing more is stated of it.
#[verifier::external_body]
pub(crate) fn str_width(text: &str) -> (width: usize)
    ensures
        width == unicode_str_width(text@),
{
    unicode_width::UnicodeWidthStr::width(text)
}

/// `String::push`: append one scalar.
#[verifier::external_body]
pub(crate) fn string_push(s: &mut String, c: char)
    ensures
        final(s)@ == old(s)@.push(c),
{
    s.push(c)
}

/// A one-scalar string.
pub(crate) fn char_string(c: char) -> (s: String)
    ensures
        s@ == seq![c],
{
    let mut s = String::new();
    string_push(&mut s, c);
    s
}

/// Printable scalar text anchored at one physical terminal column.
///
/// The first scalar has a non-zero terminal width. Following zero-width
/// scalars are retained in the same glyph instead of pretending they occupy
/// independent cells.
#[derive(Debug, Clone, PartialEq, Eq, Hash)]
pub struct ScreenGlyph {
    text: String,
    width: u8,
}

impl View for ScreenGlyph {
    type V = (Seq<char>, nat);

    closed spec fn view(&self) -> (Seq<char>, nat) {
        (self.text@, self.width as nat)
    }
}

impl ScreenGlyph {
    /// Construct a glyph from one printable, non-zero-width scalar.
    pub fn from_scalar(character: char) -> (glyph: Option<Self>)
        ensures
            glyph is Some <==> (unicode_char_width(character) matches Some(w) && 1 <= w <= 255),
            glyph matches Some(g) ==> g@ == (seq![character], unicode_char_width(character)->0 as nat),
    {
        match char_width(character) {
            Some(width) => {
                if 1 <= width && width <= 255 {
                    Some(ScreenGlyph { text: char_string(character), width: width as u8 })
                } else {
                    None
                }
            },
            None => None,
        }
    }

    /// Append a zero-width scalar to this glyph; anything else is refused.
    pub fn push_zero_width(&mut self, character: char) -> (appended: bool)
        ensures
            appended == (unicode_char_width(character) == Some(0usize)),
            appended ==> final(self)@ == (old(self)@.0.push(character), old(self)@.1),
            !appended ==> final(self)@ == old(self)@,
    {
        match char_width(character) {
            Some(0) => {
                string_push(&mut self.text, character);
                true
            },
            _ => false,
        }
    }

    /// A copy of this glyph.
    pub fn duplicate(&self) -> (copy: Self)
        ensures
            copy@ == self@,
    {
        ScreenGlyph { text: self.text.clone(), width: self.width }
    }

    /// Borrow the complete scalar sequence emitted for this glyph.
    pub fn as_str(&self) -> (text: &str)
        ensures
            text@ == self@.0,
    {
        self.text.as_str()
    }

    /// Number of physical terminal columns occupied by the glyph.
    pub fn width(&self) -> (width: usize)
        ensures
            width == self@.1,
    {
        self.width as usize
    }
}

/// The state of one physical terminal column.
#[derive(Debug, Clone, PartialEq, Eq, Hash)]
pub enum ScreenCell {
    /// An unoccupied display column.
    Blank,
    /// A printable glyph anchored at this column.
    Glyph(ScreenGlyph),
    /// A column occupied by the tail of a preceding wide glyph.
    Continuation,
    /// A column deliberately skipped at a terminal edge during layout.
    Padding,
}

/// A screen cell by value.
pub ghost enum CellView {
    Blank,
    Glyph(Seq<char>, nat),
    Continuation,
    Padding,
}

impl View for ScreenCell {
    type V = CellView;

    open spec fn view(&self) -> CellView {
        match self {
            ScreenCell::Blank => CellView::Blank,
            ScreenCell::Glyph(glyph) => CellView::Glyph(glyph@.0, glyph@.1),
            ScreenCell::Continuation => CellView::Continuation,
            ScreenCell::Padding => CellView::Padding,
        }
    }
}

impl ScreenCell {
    /// A copy of this cell.
    pub fn duplicate(&self) -> (copy: Self)
        ensures
            copy@ == self@,
    {
        match self {
            ScreenCell::Blank => ScreenCell::Blank,
            ScreenCell::Glyph(glyph) => ScreenCell::Glyph(glyph.duplicate()),
            ScreenCell::Continuation => ScreenCell::Continuation,
            ScreenCell::Padding => ScreenCell::Padding,
        }
    }
}

impl Default for ScreenCell {
    fn default() -> (cell: Self)
        ensures
            cell == ScreenCell::Blank,
    {
        ScreenCell::Blank
    }
}

/// Non-empty terminal dimensions whose area fits in `usize`.
#[derive(Debug, Clone, Copy, PartialEq, Eq, Hash, Structural)]
pub struct ScreenSize {
    rows: usize,
    columns: usize,
}

impl View for ScreenSize {
    type V = (nat, nat);

    closed spec fn view(&self) -> (nat, nat) {
        (self.rows as nat, self.columns as nat)
    }
}

/// Dimensions a `ScreenSize` may hold.
pub open spec fn valid_dimensions(rows: int, columns: int) -> bool {
    rows > 0 && columns > 0 && rows * columns <= usize::MAX
}

impl ScreenSize {
    #[verifier::type_invariant]
    spec fn valid(self) -> bool {
        valid_dimensions(self.rows as int, self.columns as int)
    }

    /// Validate terminal dimensions and their flattened area.
    pub fn new(rows: usize, columns: usize) -> (result: Result<Self, Error>)
        ensures
            (rows == 0 || columns == 0) ==> result == Err::<Self, Error>(
                Error::InvalidScreenSize { rows, columns },
            ),
            (rows != 0 && columns != 0 && rows * columns > usize::MAX) ==> result == Err::<
                Self,
                Error,
            >(Error::ScreenTooLarge { rows, columns }),
            valid_dimensions(rows as int, columns as int) ==> (result matches Ok(size) && size@ == (
                rows as nat,
                columns as nat,
            )),
    {
        if rows == 0 || columns == 0 {
            return Err(Error::InvalidScreenSize { rows, columns });
        }
        match rows.checked_mul(columns) {
            None => Err(Error::ScreenTooLarge { rows, columns }),
            Some(_) => Ok(ScreenSize { rows, columns }),
        }
    }

    pub fn rows(self) -> (rows: usize)
        ensures
            rows == self@.0,
            rows > 0,
    {
        proof {
            use_type_invariant(self);
        }
        self.rows
    }

    pub fn columns(self) -> (columns: usize)
        ensures
            columns == self@.1,
            columns > 0,
    {
        proof {
            use_type_invariant(self);
        }
        self.columns
    }

    pub fn area(self) -> (area: usize)
        ensures
            area == self@.0 * self@.1,
    {
        proof {
            use_type_invariant(self);
        }
        self.rows * self.columns
    }

    /// Validate a position against these dimensions.
    pub fn position(self, row: usize, column: usize) -> (result: Result<ScreenPosition, Error>)
        ensures
            (row < self@.0 && column < self@.1) ==> result == Ok::<ScreenPosition, Error>(
                ScreenPosition { row, column },
            ),
            !(row < self@.0 && column < self@.1) ==> result == Err::<ScreenPosition, Error>(
                Error::ScreenPositionOutOfBounds {
                    row,
                    column,
                    rows: self@.0 as usize,
                    columns: self@.1 as usize,
                },
            ),
    {
        if row < self.rows && column < self.columns {
            Ok(ScreenPosition { row, column })
        } else {
            Err(
                Error::ScreenPositionOutOfBounds {
                    row,
                    column,
                    rows: self.rows,
                    columns: self.columns,
                },
            )
        }
    }
}

/// A row and column validated against a `ScreenSize`.
#[derive(Debug, Clone, Copy, PartialEq, Eq, Hash, Structural)]
pub struct ScreenPosition {
    pub row: usize,
    pub column: usize,
}

impl ScreenPosition {
    pub fn row(self) -> (row: usize)
        ensures
            row == self.row,
    {
        self.row
    }

    pub fn column(self) -> (column: usize)
        ensures
            column == self.column,
    {
        self.column
    }
}

/// A rectangular physical screen image with checked cell access.
#[derive(Debug, Clone, PartialEq, Eq)]
pub struct Screen {
    size: ScreenSize,
    cells: Vec<ScreenCell>,
}

impl View for Screen {
    type V = (ScreenSize, Seq<ScreenCell>);

    closed spec fn view(&self) -> (ScreenSize, Seq<ScreenCell>) {
        (self.size, self.cells@)
    }
}

/// The row-major index of a cell.
pub open spec fn cell_offset(size: ScreenSize, row: int, column: int) -> int {
    row * size@.1 + column
}

impl Screen {
    /// The image holds exactly one cell per position.
    pub open spec fn wf(self) -> bool {
        self@.1.len() == self@.0@.0 * self@.0@.1
    }

    /// Construct a blank image.
    pub fn new(size: ScreenSize) -> (screen: Self)
        ensures
            screen@.0 == size,
            screen.wf(),
            forall|i: int| 0 <= i < screen@.1.len() ==> screen@.1[i] == ScreenCell::Blank,
    {
        let area = size.area();
        let mut cells: Vec<ScreenCell> = Vec::new();
        let mut i: usize = 0;
        while i < area
            invariant
                i <= area,
                cells@.len() == i,
                forall|j: int| 0 <= j < i ==> cells@[j] == ScreenCell::Blank,
            decreases area - i,
        {
            cells.push(ScreenCell::Blank);
            i = i + 1;
        }
        Screen { size, cells }
    }

    pub fn size(&self) -> (size: ScreenSize)
        ensures
            size == self@.0,
    {
        self.size
    }

    /// Borrow every physical cell in row-major order.
    pub fn cells(&self) -> (cells: &[ScreenCell])
        ensures
            cells@ == self@.1,
    {
        self.cells.as_slice()
    }

    /// The row-major index of a position, revalidated for this image.
    pub fn cell_index(&self, position: ScreenPosition) -> (result: Result<usize, Error>)
        requires
            self.wf(),
        ensures
            (position.row < self@.0@.0 && position.column < self@.0@.1) ==> (result matches Ok(i)
                && i == cell_offset(self@.0, position.row as int, position.column as int)
                && i < self@.1.len()),
            !(position.row < self@.0@.0 && position.column < self@.0@.1) ==> result == Err::<
                usize,
                Error,
            >(
                Error::ScreenPositionOutOfBounds {
                    row: position.row,
                    column: position.column,
                    rows: self@.0@.0 as usize,
                    columns: self@.0@.1 as usize,
                },
            ),
    {
        let valid = self.size.position(position.row, position.column)?;
        let columns = self.size.columns();
        let _area = self.size.area();
        proof {
            let r = valid.row as int;
            let c = valid.column as int;
            let rows = self.size@.0 as int;
            let cols = self.size@.1 as int;
            assert(r * cols + c < rows * cols) by (nonlinear_arith)
                requires
                    0 <= r < rows,
                    0 <= c < cols,
            ;
        }
        Ok(valid.row * columns + valid.column)
    }

    /// Read a position, revalidating it for this image.
    pub fn get(&self, position: ScreenPosition) -> (result: Result<&ScreenCell, Error>)
        requires
            self.wf(),
        ensures
            (position.row < self@.0@.0 && position.column < self@.0@.1) ==> (result matches Ok(
                cell,
            ) && *cell == self@.1[cell_offset(self@.0, position.row as int, position.column as int)]),
            !(position.row < self@.0@.0 && position.column < self@.0@.1) ==> result == Err::<
                &ScreenCell,
                Error,
            >(
                Error::ScreenPositionOutOfBounds {
                    row: position.row,
                    column: position.column,
                    rows: self@.0@.0 as usize,
                    columns: self@.0@.1 as usize,
                },
            ),
    {
        let index = self.cell_index(position)?;
        Ok(&self.cells[index])
    }

    /// Replace a position, revalidating it for this image.
    pub fn set(&mut self, position: ScreenPosition, cell: ScreenCell) -> (result: Result<(), Error>)
        requires
            old(self).wf(),
        ensures
            final(self).wf(),
            (position.row < old(self)@.0@.0 && position.column < old(self)@.0@.1) ==> (result is Ok
                && final(self)@ == (old(self)@.0, old(self)@.1.update(
                cell_offset(old(self)@.0, position.row as int, position.column as int),
                cell,
            ))),
            !(position.row < old(self)@.0@.0 && position.column < old(self)@.0@.1) ==> (result
                == Err::<(), Error>(
                Error::ScreenPositionOutOfBounds {
                    row: position.row,
                    column: position.column,
                    rows: old(self)@.0@.0 as usize,
                    columns: old(self)@.0@.1 as usize,
                },
            ) && final(self)@ == old(self)@),
    {
        let index = self.cell_index(position)?;
        self.cells.set(index, cell);
        Ok(())
    }
}

} // verus!
