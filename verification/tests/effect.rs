use nshedit::domain::{
    CommandName, Direction, EditorConfig, Outcome, Prompt, ScreenSize, Signal, TerminalMode, Text,
    TextUnit,
};
use nshedit::editor::effect::{
    AliasEffect, Effect, EffectStateError, HistoryNavigateEffect, HistoryRecordEffect,
    HistoryResponse, HostFailure, PromptEffect, PromptSide, ReadEffect, ReadOutcome,
    ResizeEffect, SignalEffect, UserCommandEffect,
};
use nshedit::editor::{Editor, TerminalControl};

struct TestTerminal;

impl TerminalControl for TestTerminal {
    fn activate(&mut self, _config: EditorConfig) -> std::io::Result<()> {
        Ok(())
    }

    fn set_mode(&mut self, _mode: TerminalMode) -> std::io::Result<()> {
        Ok(())
    }

    fn restore(&mut self) -> std::io::Result<()> {
        Ok(())
    }
}

fn editor() -> Editor<TestTerminal> {
    Editor::new(EditorConfig::default(), TestTerminal).unwrap()
}

#[test]
fn suspension_releases_editor_borrow() {
    let mut editor = editor();
    let prompt = editor
        .suspend(PromptEffect {
            side: PromptSide::Left,
        })
        .unwrap();

    assert_eq!(prompt.request().side, PromptSide::Left);
    assert_eq!(editor.config(), EditorConfig::default());
    assert_eq!(
        editor.suspend(ReadEffect::default()).err(),
        Some(EffectStateError::AlreadySuspended)
    );

    let response = editor
        .resume(&prompt, Ok(Prompt::from("prompt> ")))
        .unwrap();
    assert_eq!(response, Ok(Prompt::from("prompt> ")));
    assert!(editor.suspend(ReadEffect::default()).is_ok());
}

#[test]
fn wrong_editor_cannot_resume_effect() {
    let mut first = editor();
    let mut second = editor();
    let pending = first.suspend(ReadEffect::default()).unwrap();

    assert_eq!(
        second.resume(&pending, Ok(ReadOutcome::EndOfInput)),
        Err(EffectStateError::DifferentEditor)
    );
    assert_eq!(
        first.resume(&pending, Ok(ReadOutcome::EndOfInput)),
        Ok(Ok(ReadOutcome::EndOfInput))
    );
}

#[test]
fn stale_suspension_cannot_replace_current() {
    let mut editor = editor();
    let old = editor.suspend(ReadEffect::default()).unwrap();
    assert_eq!(
        editor.resume(&old, Ok(ReadOutcome::EndOfInput)),
        Ok(Ok(ReadOutcome::EndOfInput))
    );
    let current = editor.suspend(ReadEffect::default()).unwrap();

    assert_eq!(
        editor.resume(&old, Ok(ReadOutcome::EndOfInput)),
        Err(EffectStateError::StaleSuspension)
    );
    assert_eq!(
        editor.resume(&current, Err(HostFailure::Cancelled)),
        Ok(Err(HostFailure::Cancelled))
    );
}

#[test]
fn a_response_is_accepted_once() {
    let mut editor = editor();
    let read = editor.suspend(ReadEffect::KeySequence).unwrap();
    assert_eq!(
        editor.resume(&read, Ok(ReadOutcome::TimedOut)),
        Ok(Ok(ReadOutcome::TimedOut))
    );
    assert_eq!(
        editor.resume(&read, Ok(ReadOutcome::TimedOut)),
        Err(EffectStateError::NoSuspendedEffect)
    );
}

#[test]
fn host_boundaries_have_typed_responses() {
    fn accepts<E: Effect>(_effect: E, _response: E::Response) {}

    accepts(
        PromptEffect {
            side: PromptSide::Right,
        },
        Ok(Prompt::from("prompt")),
    );
    accepts(
        ReadEffect::default(),
        Ok(ReadOutcome::Unit(TextUnit::Scalar('x'))),
    );
    accepts(
        HistoryNavigateEffect {
            direction: Direction::Previous,
        },
        Ok(HistoryResponse::Entry(Text::from("old"))),
    );
    accepts(
        HistoryNavigateEffect {
            direction: Direction::Next,
        },
        Ok(HistoryResponse::Live),
    );
    accepts(
        HistoryNavigateEffect {
            direction: Direction::Previous,
        },
        Ok(HistoryResponse::Boundary),
    );
    accepts(
        HistoryRecordEffect {
            line: Text::from("new"),
        },
        Ok(()),
    );
    accepts(
        AliasEffect {
            name: CommandName::new("ll").unwrap(),
        },
        Ok(Some(Text::from("ls -l"))),
    );
    accepts(ResizeEffect, Ok(ScreenSize::new(24, 80).unwrap()));
    accepts(
        SignalEffect {
            signal: Signal::Interrupt,
        },
        Ok(()),
    );
    accepts(
        UserCommandEffect {
            name: CommandName::new("transpose").unwrap(),
            arguments: vec![Text::from("word")],
        },
        Ok(Outcome::Continue),
    );
}
