use nshedit::domain::{
    Error, NonScalarWide, Prompt, ScreenCell, ScreenSize, TerminalLiteral, Text, TextIndex,
    TextUnit,
};
use nshedit::editor::layout::{build, Atom};

fn size(rows: usize, columns: usize) -> ScreenSize {
    ScreenSize::new(rows, columns).unwrap()
}

fn glyph_text(cell: &ScreenCell) -> String {
    match cell {
        ScreenCell::Glyph(glyph) => glyph.as_str().to_string(),
        other => panic!("not a glyph: {other:?}"),
    }
}

fn row_text(frame: &nshedit::editor::layout::Frame, row: usize, columns: usize) -> String {
    let mut out = String::new();
    for column in 0..columns {
        let position = frame.screen.size().position(row, column).unwrap();
        match frame.screen.get(position).unwrap() {
            ScreenCell::Glyph(glyph) => out.push_str(glyph.as_str()),
            ScreenCell::Blank => out.push('.'),
            ScreenCell::Continuation => out.push('+'),
            ScreenCell::Padding => out.push('_'),
        }
    }
    out
}

#[test]
fn literals_do_not_consume_columns() {
    let mut prompt = Prompt::from_text(Text::from_str("a"));
    prompt.push_literal(TerminalLiteral::from_bytes(&b"\x1b[31m"[..]));
    prompt.push_text(Text::from_str("b"));
    let frame = build(
        size(2, 8),
        &prompt,
        None,
        &Text::from_str("c"),
        TextIndex::zero(),
    )
    .unwrap();
    assert_eq!(frame.cursor.column(), 2);
    assert_eq!(frame.rows[0].used(), 3);
    assert!(matches!(frame.rows[0].atoms[1], Atom::Literal(_)));
}

#[test]
fn raw_units_render_as_escapes() {
    let line = Text::from_units(vec![
        TextUnit::RawByte(0xff),
        TextUnit::CompatibilityWide(NonScalarWide::new(0xd800).unwrap()),
    ]);
    let frame = build(
        size(3, 16),
        &Prompt::new(),
        None,
        &line,
        line.index(2).unwrap(),
    )
    .unwrap();
    assert_eq!(frame.cursor.row(), 0);
    assert_eq!(frame.cursor.column(), 12);
    assert_eq!(row_text(&frame, 0, 16), "\\xFF\\u{D800}....");
}

#[test]
fn combining_text_shares_one_cell() {
    let line = Text::from_str("e\u{301}x");
    let frame = build(
        size(2, 8),
        &Prompt::new(),
        None,
        &line,
        line.index(2).unwrap(),
    )
    .unwrap();
    let first = size(2, 8).position(0, 0).unwrap();
    let ScreenCell::Glyph(glyph) = frame.screen.get(first).unwrap() else {
        panic!("first cell was not a glyph");
    };
    assert_eq!(glyph.as_str(), "e\u{301}");
    assert_eq!(frame.cursor.column(), 1);
}

#[test]
fn right_prompt_requires_a_gap() {
    let left = Prompt::from_text(Text::from_str("left"));
    let right = Prompt::from_text(Text::from_str("right"));
    let empty = Text::new();
    let frame = build(size(1, 9), &left, Some(&right), &empty, TextIndex::zero()).unwrap();
    assert_eq!(frame.rows[0].used(), 4);

    let frame = build(size(1, 10), &left, Some(&right), &empty, TextIndex::zero()).unwrap();
    assert_eq!(frame.rows[0].used(), 10);
}

#[test]
fn viewport_keeps_cursor_visible() {
    let line = Text::from_str("0123456789abcdefghij");
    let frame = build(
        size(2, 5),
        &Prompt::new(),
        None,
        &line,
        line.index(18).unwrap(),
    )
    .unwrap();
    assert_eq!(frame.cursor.row(), 1);
    assert_eq!(frame.cursor.column(), 3);
    assert_eq!(frame.rows.len(), 2);
    assert_eq!(frame.rows_used(), 2);
    assert_eq!(row_text(&frame, 0, 5), "abcde");
    assert_eq!(row_text(&frame, 1, 5), "fghij");
}

#[test]
fn a_cursor_past_the_line_is_refused() {
    let line = Text::from_str("ab");
    let long = Text::from_str("abcd");
    let past = long.index(3).unwrap();
    let result = build(size(2, 8), &Prompt::new(), None, &line, past);
    assert!(matches!(
        result,
        Err(Error::TextIndexOutOfBounds { index: 3, len: 2 })
    ));
}

#[test]
fn tabs_stop_every_eight_columns_and_newlines_start_a_row() {
    let line = Text::from_str("a\tb\nc");
    let frame = build(
        size(3, 12),
        &Prompt::new(),
        None,
        &line,
        line.index(5).unwrap(),
    )
    .unwrap();
    assert_eq!(row_text(&frame, 0, 12), "a.......b...");
    assert_eq!(row_text(&frame, 1, 12), "c...........");
    assert_eq!(frame.cursor.row(), 1);
    assert_eq!(frame.cursor.column(), 1);
}

#[test]
fn a_wide_glyph_that_does_not_fit_pads_and_wraps() {
    let line = Text::from_str("ab\u{65e5}");
    let frame = build(
        size(3, 3),
        &Prompt::new(),
        None,
        &line,
        line.index(3).unwrap(),
    )
    .unwrap();
    assert_eq!(row_text(&frame, 0, 3), "ab_");
    assert_eq!(row_text(&frame, 1, 3), "\u{65e5}+.");
    assert_eq!(frame.cursor.row(), 1);
    assert_eq!(frame.cursor.column(), 2);
}

#[test]
fn controls_and_lone_combining_marks_show_as_escapes() {
    let line = Text::from_str("\u{301}\u{1}\u{7f}");
    let frame = build(
        size(1, 16),
        &Prompt::new(),
        None,
        &line,
        line.index(3).unwrap(),
    )
    .unwrap();
    assert_eq!(row_text(&frame, 0, 16), "\\u{301}^A^?.....");
    assert_eq!(frame.cursor.column(), 11);
}

#[test]
fn a_right_prompt_without_columns_only_adds_its_literals() {
    let left = Prompt::from_text(Text::from_str("x"));
    let mut right = Prompt::new();
    right.push_literal(TerminalLiteral::from_bytes(&b"\x1b[0m"[..]));
    let frame = build(size(1, 6), &left, Some(&right), &Text::new(), TextIndex::zero()).unwrap();
    assert_eq!(frame.rows[0].used(), 1);
    assert_eq!(frame.rows[0].atoms.len(), 2);
    assert!(matches!(frame.rows[0].atoms[1], Atom::Literal(_)));
}

#[test]
fn literals_of_rows_scrolled_away_are_kept() {
    let mut prompt = Prompt::new();
    prompt.push_literal(TerminalLiteral::from_bytes(&b"\x1b[1m"[..]));
    prompt.push_text(Text::from_str("p"));
    let line = Text::from_str("\n\nzz");
    let frame = build(size(1, 4), &prompt, None, &line, line.index(4).unwrap()).unwrap();
    assert_eq!(frame.rows.len(), 1);
    assert_eq!(frame.cursor.row(), 0);
    assert!(matches!(frame.rows[0].atoms[0], Atom::Literal(_)));
    assert_eq!(glyph_text(frame.screen.get(size(1, 4).position(0, 0).unwrap()).unwrap()), "z");
}
