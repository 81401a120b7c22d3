use nshedit::domain::{
    Action, CharacterSearch, CharacterSearchLanding, Direction, EditTarget, Error, Text,
    TextIndex, TextUnit, WordKind,
};
use nshedit::editor::commands::{
    action_belongs_in_replay, action_changes_line, action_refreshes_cursor,
    action_repeats_with_count, character_destination, decimal_digit, matching_delimiter,
    operator_span, word_end,
};

fn at(line: &Text, position: usize) -> TextIndex {
    line.index(position).unwrap()
}

#[test]
fn brackets_find_their_partners_across_nesting() {
    let line = Text::from("f(a, (b), [c]) }");
    assert_eq!(
        matching_delimiter(&line, at(&line, 0)),
        Some((at(&line, 13), Direction::Next))
    );
    assert_eq!(
        matching_delimiter(&line, at(&line, 13)),
        Some((at(&line, 1), Direction::Previous))
    );
    assert_eq!(
        matching_delimiter(&line, at(&line, 9)),
        Some((at(&line, 12), Direction::Next))
    );
    assert_eq!(matching_delimiter(&line, at(&line, 14)), None);
    let plain = Text::from("no brackets");
    assert_eq!(matching_delimiter(&plain, at(&plain, 0)), None);
}

#[test]
fn word_end_lands_on_the_last_unit_of_the_run() {
    let line = Text::from("foo.bar baz");
    assert_eq!(word_end(&line, at(&line, 0), WordKind::Word, 1), Some(at(&line, 2)));
    assert_eq!(word_end(&line, at(&line, 2), WordKind::Word, 1), Some(at(&line, 3)));
    assert_eq!(word_end(&line, at(&line, 0), WordKind::BigWord, 1), Some(at(&line, 6)));
    assert_eq!(word_end(&line, at(&line, 0), WordKind::Word, 9), Some(at(&line, 10)));
    assert_eq!(word_end(&line, at(&line, 5), WordKind::Word, 0), Some(at(&line, 5)));
    assert_eq!(word_end(&line, at(&line, 11), WordKind::Word, 1), None);
}

#[test]
fn character_searches_land_on_or_beside_the_target() {
    let line = Text::from("a,b,c,d");
    let comma = TextUnit::Scalar(',');
    let on = CharacterSearch::new(Direction::Next, CharacterSearchLanding::OnTarget);
    let before = CharacterSearch::new(Direction::Next, CharacterSearchLanding::BeforeTarget);
    let back = CharacterSearch::new(Direction::Previous, CharacterSearchLanding::BeforeTarget);
    assert_eq!(character_destination(&line, at(&line, 0), on, comma, 2), Some(at(&line, 3)));
    assert_eq!(character_destination(&line, at(&line, 0), before, comma, 1), Some(at(&line, 0)));
    assert_eq!(character_destination(&line, at(&line, 6), back, comma, 1), Some(at(&line, 6)));
    assert_eq!(character_destination(&line, at(&line, 0), on, comma, 4), None);
    assert_eq!(character_destination(&line, at(&line, 4), on, TextUnit::Scalar('a'), 1), None);
}

#[test]
fn operator_spans_cover_at_least_one_unit() {
    let line = Text::from("abcd");
    let span = operator_span(&line, at(&line, 3), at(&line, 1), false).unwrap();
    assert_eq!((span.start().get(), span.end().get()), (1, 3));
    let span = operator_span(&line, at(&line, 1), at(&line, 2), true).unwrap();
    assert_eq!((span.start().get(), span.end().get()), (1, 3));
    let span = operator_span(&line, at(&line, 2), at(&line, 2), false).unwrap();
    assert_eq!((span.start().get(), span.end().get()), (2, 3));
    let span = operator_span(&line, at(&line, 4), at(&line, 4), false).unwrap();
    assert_eq!((span.start().get(), span.end().get()), (4, 4));
    let long = Text::from("abcdefgh");
    assert_eq!(
        operator_span(&line, at(&long, 6), at(&line, 0), false),
        Err(Error::TextIndexOutOfBounds { index: 6, len: 4 })
    );
}

#[test]
fn digits_are_read_through_the_low_seven_bits() {
    assert_eq!(decimal_digit(TextUnit::Scalar('7')), Some(7));
    assert_eq!(decimal_digit(TextUnit::RawByte(b'0' | 0x80)), Some(0));
    assert_eq!(decimal_digit(TextUnit::Scalar('x')), None);
    assert_eq!(decimal_digit(TextUnit::Scalar('\u{663}')), None);
}

#[test]
fn actions_are_classified_for_counts_and_replay() {
    let word = EditTarget::Word {
        direction: Direction::Next,
        kind: WordKind::Word,
    };
    assert!(action_repeats_with_count(&Action::Kill(word)));
    assert!(!action_repeats_with_count(&Action::Kill(EditTarget::Buffer)));
    assert!(action_changes_line(&Action::TransposeCharacters));
    assert!(!action_changes_line(&Action::SetMark));
    assert!(!action_belongs_in_replay(&Action::Undo));
    assert!(action_belongs_in_replay(&Action::SetMark));
    assert!(action_refreshes_cursor(&Action::ExchangeMark));
    assert!(!action_refreshes_cursor(&Action::Insert(Text::from("a"))));
}
