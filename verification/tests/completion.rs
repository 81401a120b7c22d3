use nshedit::domain::{Action, EditorConfig, Error, Motion, TerminalMode, Text};
use nshedit::editor::completion::{
    CompletionCandidate, CompletionCandidates, CompletionOutcome, CompletionQuery, QuoteStyle,
};
use nshedit::editor::{Editor, TerminalControl};

struct TestTerminal;

impl TerminalControl for TestTerminal {
    fn activate(&mut self, _config: EditorConfig) -> std::io::Result<()> {
        Ok(())
    }

    fn set_mode(&mut self, _mode: TerminalMode) -> std::io::Result<()> {
        Ok(())
    }

    fn restore(&mut self) -> std::io::Result<()> {
        Ok(())
    }
}

fn editor(source: &str) -> Editor<TestTerminal> {
    let mut editor = Editor::new(EditorConfig::default(), TestTerminal).unwrap();
    editor.insert_untracked(Text::from(source)).unwrap();
    editor
}

fn move_to(editor: &mut Editor<TestTerminal>, position: usize) {
    let index = editor.line().index(position).unwrap();
    editor.execute(Action::Move(Motion::Absolute(index))).unwrap();
}

/// The query a word-completing host forms for the word that starts at
/// `start` and ends at the cursor.
fn query_for(editor: &Editor<TestTerminal>, start: usize, stem: &str, quote: QuoteStyle) -> CompletionQuery {
    let line = editor.line().duplicate();
    let span = line.span(start, editor.cursor().get()).unwrap();
    CompletionQuery::new(
        line,
        editor.cursor(),
        span,
        Text::from(stem),
        quote,
        Text::from(" \t\n"),
    )
    .unwrap()
}

fn candidates(list: Vec<CompletionCandidate>) -> CompletionCandidates {
    CompletionCandidates::from(list)
}

#[test]
fn unique_completion_is_one_undoable_edit() {
    let mut editor = editor("ec");
    let query = query_for(&editor, 0, "ec", QuoteStyle::Unquoted);
    let list = candidates(vec![
        CompletionCandidate::new(Text::from("echo")).with_suffix(Text::from(" ")),
    ]);

    let outcome = editor.apply_completion(&query, list).unwrap();
    assert!(matches!(outcome, CompletionOutcome::Unique { .. }));
    assert_eq!(editor.line(), &Text::from("echo "));
    assert!(editor.can_undo());
    editor.execute(Action::Undo).unwrap();
    assert_eq!(editor.line(), &Text::from("ec"));
}

#[test]
fn completion_preserves_text_after_cursor() {
    let mut editor = editor("foXX");
    move_to(&mut editor, 2);
    let query = query_for(&editor, 0, "fo", QuoteStyle::Unquoted);

    editor
        .apply_completion(
            &query,
            candidates(vec![CompletionCandidate::new(Text::from("foobar"))]),
        )
        .unwrap();

    assert_eq!(editor.line(), &Text::from("foobarXX"));
    assert_eq!(editor.cursor().get(), 6);
}

#[test]
fn ambiguous_completion_extends_common_prefix() {
    let mut editor = editor("fo");
    let query = query_for(&editor, 0, "fo", QuoteStyle::Unquoted);
    let list = candidates(vec![
        CompletionCandidate::new(Text::from("foobar")),
        CompletionCandidate::new(Text::from("foobaz")),
        CompletionCandidate::new(Text::from("foobar")).with_display(Text::from("duplicate")),
        CompletionCandidate::new(Text::from("unrelated")),
    ]);

    let outcome = editor.apply_completion(&query, list).unwrap();
    let CompletionOutcome::Ambiguous { edit, candidates } = outcome else {
        panic!("two distinct matching candidates must remain ambiguous");
    };
    assert!(edit.is_some());
    assert_eq!(candidates.len(), 2);
    assert_eq!(editor.line(), &Text::from("fooba"));
}

#[test]
fn no_match_creates_no_edit() {
    let mut editor = editor("zz");
    let query = query_for(&editor, 0, "zz", QuoteStyle::Unquoted);
    let outcome = editor
        .apply_completion(
            &query,
            candidates(vec![CompletionCandidate::new(Text::from("other"))]),
        )
        .unwrap();

    assert!(matches!(outcome, CompletionOutcome::NoMatch));
    assert_eq!(editor.line(), &Text::from("zz"));
    assert!(!editor.can_undo());
}

#[test]
fn quote_encoding_round_trips_the_candidate() {
    let mut editor = editor("'fo");
    let query = query_for(&editor, 0, "fo", QuoteStyle::Single);
    let candidate = CompletionCandidate::new(Text::from("foo'bar")).with_suffix(Text::from(" "));
    editor
        .apply_completion(&query, candidates(vec![candidate]))
        .unwrap();

    assert_eq!(editor.line(), &Text::from("'foo'\\''bar' "));
}

#[test]
fn quote_styles_preserve_candidate_text() {
    let cases = [
        ("fo", "fo", QuoteStyle::Unquoted, "foo bar\nbaz", "foo\\ bar'\n'baz"),
        ("\"fo", "fo", QuoteStyle::Double, "foo\"bar\\baz\nnext", "\"foo\\\"bar\\\\baz\nnext\""),
    ];
    for (source, stem, quote, candidate, written) in cases {
        let mut editor = editor(source);
        let query = query_for(&editor, 0, stem, quote);
        editor
            .apply_completion(
                &query,
                candidates(vec![CompletionCandidate::new(Text::from(candidate))]),
            )
            .unwrap();
        assert_eq!(editor.line(), &Text::from(written));
    }
}

#[test]
fn stale_response_cannot_change_reentrant_edits() {
    let mut editor = editor("ec");
    let query = query_for(&editor, 0, "ec", QuoteStyle::Unquoted);
    editor.execute(Action::Insert(Text::from("h"))).unwrap();

    assert!(matches!(
        editor.apply_completion(
            &query,
            candidates(vec![CompletionCandidate::new(Text::from("echo"))])
        ),
        Err(Error::StaleCompletionResponse)
    ));
    assert_eq!(editor.line(), &Text::from("ech"));
}

#[test]
fn display_and_suffix_are_owned_separately() {
    let candidate = CompletionCandidate::new(Text::from("src/main.rs"))
        .with_display(Text::from("main.rs"))
        .with_suffix(Text::from(" "));
    assert_eq!(candidate.insertion(), &Text::from("src/main.rs"));
    assert_eq!(candidate.display(), &Text::from("main.rs"));
    assert_eq!(candidate.suffix(), Some(&Text::from(" ")));
}

#[test]
fn queries_check_their_boundaries() {
    let line = Text::from("ab");
    let long = Text::from("abcd");
    assert_eq!(
        CompletionQuery::new(
            line.duplicate(),
            long.index(3).unwrap(),
            line.span(0, 2).unwrap(),
            Text::new(),
            QuoteStyle::Unquoted,
            Text::new(),
        )
        .err(),
        Some(Error::TextIndexOutOfBounds { index: 3, len: 2 })
    );
    assert_eq!(
        CompletionQuery::new(
            line.duplicate(),
            line.index(2).unwrap(),
            long.span(1, 4).unwrap(),
            Text::new(),
            QuoteStyle::Unquoted,
            Text::new(),
        )
        .err(),
        Some(Error::InvalidTextSpan { start: 1, end: 4, len: 2 })
    );
}

#[test]
fn unquoted_words_escape_separators_and_specials() {
    let mut editor = editor("a");
    let query = query_for(&editor, 0, "a", QuoteStyle::Unquoted);
    editor
        .apply_completion(
            &query,
            candidates(vec![CompletionCandidate::new(Text::from("a b$c"))]),
        )
        .unwrap();
    assert_eq!(editor.line(), &Text::from("a\\ b\\$c"));
}
