use nshedit::domain::{
    Action, Buffering, CommandName, Direction, EditingMode, EditorConfig, Error, Motion,
    NonScalarWide, Outcome, Prompt, PromptPart, Screen, ScreenCell, ScreenGlyph, ScreenSize,
    SignalPolicy, TerminalLiteral, Text, TextUnit, WordKind,
};

#[test]
fn config_uses_typed_policies() {
    let config = EditorConfig::default()
        .with_editing_mode(EditingMode::Vi)
        .with_signal_policy(SignalPolicy::Ignore)
        .with_buffering(Buffering::Character);

    assert_eq!(config.editing_mode(), EditingMode::Vi);
    assert_eq!(config.signal_policy(), SignalPolicy::Ignore);
    assert_eq!(config.buffering(), Buffering::Character);
}

#[test]
fn actions_carry_domain_values() {
    let action = Action::Move(Motion::Word {
        direction: Direction::Next,
        kind: WordKind::BigWord,
    });
    assert_eq!(
        action,
        Action::Move(Motion::Word {
            direction: Direction::Next,
            kind: WordKind::BigWord,
        })
    );
}

#[test]
fn empty_user_command_is_an_error() {
    assert_eq!(CommandName::new(""), Err(Error::EmptyCommandName));
    assert_eq!(CommandName::new("transpose").unwrap().as_str(), "transpose");
}

#[test]
fn outcomes_carry_owned_text() {
    let accepted = Outcome::Accepted(Text::from("echo hello"));
    assert_eq!(accepted, Outcome::Accepted(Text::from("echo hello")));
}

#[test]
fn prompt_separates_text_from_literals() {
    let mut prompt = Prompt::from("ready> ");
    prompt.push_literal(TerminalLiteral::from(&b"\x1b[31m"[..]));
    prompt.push_text(Text::from("red"));

    assert_eq!(prompt.parts().len(), 3);
    assert_eq!(
        prompt.parts()[1],
        PromptPart::Literal(TerminalLiteral::from(&b"\x1b[31m"[..]))
    );
}

#[test]
fn empty_parts_do_not_accumulate() {
    let mut prompt = Prompt::new();
    prompt.push_text(Text::from(""));
    prompt.push_literal(TerminalLiteral::from(Vec::<u8>::new()));
    assert!(prompt.is_empty());
}

#[test]
fn display_values_have_distinct_types() {
    let logical = TextUnit::CompatibilityWide(NonScalarWide::new(0xD800).unwrap());
    let literal = TerminalLiteral::from(&b"\x1b[31m"[..]);
    let glyph = ScreenGlyph::from_scalar('x').unwrap();
    let cells = [
        ScreenCell::Glyph(glyph),
        ScreenCell::Continuation,
        ScreenCell::Padding,
        ScreenCell::Blank,
    ];

    assert_eq!(logical, TextUnit::from_wide(0xD800));
    assert_eq!(literal.as_bytes(), b"\x1b[31m");
    assert_ne!(cells[1], cells[2]);
}

#[test]
fn combining_scalars_share_the_anchor() {
    let mut glyph = ScreenGlyph::from_scalar('e').unwrap();
    assert!(glyph.push_zero_width('\u{301}'));
    assert!(!glyph.push_zero_width('x'));
    assert_eq!(glyph.as_str(), "e\u{301}");
    assert_eq!(glyph.width(), 1);
    assert!(ScreenGlyph::from_scalar('\u{301}').is_none());
}

#[test]
fn dimensions_and_positions_are_checked() {
    assert_eq!(
        ScreenSize::new(0, 80),
        Err(Error::InvalidScreenSize {
            rows: 0,
            columns: 80,
        })
    );
    let size = ScreenSize::new(2, 3).unwrap();
    assert_eq!(size.position(1, 2).unwrap().column(), 2);
    assert_eq!(
        size.position(2, 0),
        Err(Error::ScreenPositionOutOfBounds {
            row: 2,
            column: 0,
            rows: 2,
            columns: 3,
        })
    );
}

#[test]
fn positions_are_rechecked_on_use() {
    let large = ScreenSize::new(2, 2).unwrap();
    let small = ScreenSize::new(1, 1).unwrap();
    let position = large.position(1, 1).unwrap();
    let screen = Screen::new(small);
    assert_eq!(
        screen.get(position),
        Err(Error::ScreenPositionOutOfBounds {
            row: 1,
            column: 1,
            rows: 1,
            columns: 1,
        })
    );
}

#[test]
fn screen_updates_use_typed_cells() {
    let size = ScreenSize::new(1, 2).unwrap();
    let mut screen = Screen::new(size);
    let position = size.position(0, 1).unwrap();
    screen.set(position, ScreenCell::Continuation).unwrap();
    assert_eq!(screen.get(position), Ok(&ScreenCell::Continuation));
}

#[test]
fn wide_values_keep_their_kind() {
    assert_eq!(TextUnit::from_wide(0x41), TextUnit::Scalar('A'));
    assert_eq!(
        TextUnit::from_wide(0xD800),
        TextUnit::CompatibilityWide(NonScalarWide::new(0xD800).unwrap())
    );
    assert_eq!(NonScalarWide::new(0x41), Err(Error::ScalarWideValue(0x41)));
}

#[test]
fn raw_bytes_are_not_scalars() {
    assert_ne!(TextUnit::RawByte(b'A'), TextUnit::Scalar('A'));
}

#[test]
fn indices_and_spans_are_checked() {
    let text = Text::from("abc");
    assert_eq!(text.index(3).unwrap().get(), 3);
    assert_eq!(
        text.index(4),
        Err(Error::TextIndexOutOfBounds { index: 4, len: 3 })
    );
    assert_eq!(text.span(1, 3).unwrap().len(), 2);
    let end = text.len() - 2;
    assert_eq!(
        text.span(text.len(), end),
        Err(Error::InvalidTextSpan {
            start: 3,
            end: 1,
            len: 3,
        })
    );
}

#[test]
fn spans_are_rechecked_on_use() {
    let long = Text::from("abcd");
    let short = Text::from("a");
    let span = long.span(2, 4).unwrap();
    assert_eq!(
        short.slice(span),
        Err(Error::InvalidTextSpan {
            start: 2,
            end: 4,
            len: 1,
        })
    );
}

#[test]
fn mutations_preserve_logical_units() {
    let mut text = Text::from("ac");
    text.insert(text.index(1).unwrap(), &Text::from("b"))
        .unwrap();
    assert_eq!(text, Text::from("abc"));
    let removed = text.remove(text.span(1, 2).unwrap()).unwrap();
    assert_eq!(removed, Text::from("b"));
    assert_eq!(text, Text::from("ac"));
}

#[test]
fn replacing_a_span_splices_the_units() {
    let mut text = Text::from("abcdef");
    let span = text.span(2, 4).unwrap();
    text.replace(span, &Text::from("XYZ")).unwrap();
    assert_eq!(text, Text::from("abXYZef"));
    let stale = Text::from("a").span(0, 1).unwrap();
    let mut short = Text::new();
    assert_eq!(
        short.replace(stale, &Text::from("q")),
        Err(Error::InvalidTextSpan { start: 0, end: 1, len: 0 })
    );
}
