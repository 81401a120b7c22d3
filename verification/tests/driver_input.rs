use std::io;

use nshedit::domain::{
    Action, Binding, Buffering, EditingMode, EditorConfig, KeySequence, KeymapMode, Motion, Prompt, ScreenSize,
    Signal, TerminalMode, Text, TextUnit,
};
use nshedit::editor::capability::TerminalProfile;
use nshedit::editor::driver::{
    DisplayKind, DriverError, Pending, ReadDriver, ReadInterrupt, ReadResult, ReadStep,
};
use nshedit::editor::effect::{PromptSide, ReadEffect, ReadOutcome};
use nshedit::editor::{Editor, TerminalControl};

struct Tty;

impl TerminalControl for Tty {
    fn activate(&mut self, _config: EditorConfig) -> io::Result<()> {
        Ok(())
    }

    fn set_mode(&mut self, _mode: TerminalMode) -> io::Result<()> {
        Ok(())
    }

    fn restore(&mut self) -> io::Result<()> {
        Ok(())
    }
}

fn session(config: EditorConfig) -> Editor<Tty> {
    let mut editor = Editor::new(config, Tty).unwrap();
    editor.configure_display(TerminalProfile::plain(), ScreenSize::new(3, 24).unwrap());
    editor
}

/// Answer size, prompt and display steps until the driver asks for
/// something else; displays report `kinds` as they pass.
fn settle(
    driver: &mut ReadDriver,
    editor: &mut Editor<Tty>,
    mut step: ReadStep,
    kinds: &mut Vec<DisplayKind>,
) -> ReadStep {
    loop {
        step = match step {
            ReadStep::Resize(pending) => driver
                .resume_resize(editor, &pending, Ok(ScreenSize::new(3, 24).unwrap()))
                .unwrap(),
            ReadStep::Prompt(pending) => {
                let prompt = match pending.request().side {
                    PromptSide::Left => Prompt::from_text(Text::from_str("p> ")),
                    PromptSide::Right => Prompt::new(),
                };
                driver.resume_prompt(editor, &pending, Ok(prompt)).unwrap()
            }
            ReadStep::Display(display) => {
                kinds.push(display.kind());
                driver.display(editor, &display, Ok(())).unwrap()
            }
            other => return other,
        };
    }
}

fn read(step: ReadStep) -> Pending<ReadEffect> {
    match step {
        ReadStep::Read(pending) => pending,
        _ => panic!("the driver did not ask for input"),
    }
}

fn start(driver: &mut ReadDriver, editor: &mut Editor<Tty>) -> Pending<ReadEffect> {
    let step = driver.begin(editor).unwrap();
    read(settle(driver, editor, step, &mut Vec::new()))
}

fn send(
    driver: &mut ReadDriver,
    editor: &mut Editor<Tty>,
    pending: &Pending<ReadEffect>,
    outcome: ReadOutcome,
    kinds: &mut Vec<DisplayKind>,
) -> ReadStep {
    let step = driver.resume_read(editor, pending, Ok(outcome)).unwrap();
    settle(driver, editor, step, kinds)
}

fn key(character: char) -> ReadOutcome {
    ReadOutcome::Unit(TextUnit::Scalar(character))
}

#[test]
fn split_utf8_is_decoded_inserted_and_accepted() {
    let mut editor = session(EditorConfig::default());
    let mut driver = ReadDriver::new();
    let mut kinds = Vec::new();
    let pending = start(&mut driver, &mut editor);
    let pending = read(send(&mut driver, &mut editor, &pending, ReadOutcome::Bytes(vec![0xc3]), &mut kinds));
    assert!(kinds.is_empty());
    let pending = read(send(&mut driver, &mut editor, &pending, ReadOutcome::Bytes(vec![0xa9]), &mut kinds));
    assert_eq!(editor.line(), &Text::from_str("é"));
    assert_eq!(kinds, vec![DisplayKind::Refresh]);
    let ReadStep::RecordHistory(record) = send(&mut driver, &mut editor, &pending, key('\n'), &mut kinds) else {
        panic!("an accepted line is recorded");
    };
    let step = driver.resume_history_record(&mut editor, &record, Ok(())).unwrap();
    let step = settle(&mut driver, &mut editor, step, &mut kinds);
    match step {
        ReadStep::Complete(result) => assert_eq!(result, ReadResult::Accepted(Text::from_str("é"))),
        _ => panic!("the read completes with the line"),
    }
    assert_eq!(kinds.last(), Some(&DisplayKind::FinishLine));
    assert_eq!(editor.terminal_mode(), TerminalMode::Cooked);
}

#[test]
fn several_bytes_are_processed_before_more_input_is_asked() {
    let mut editor = session(EditorConfig::default());
    let mut driver = ReadDriver::new();
    let mut kinds = Vec::new();
    let pending = start(&mut driver, &mut editor);
    let step = send(&mut driver, &mut editor, &pending, ReadOutcome::Bytes(b"ab\x02c".to_vec()), &mut kinds);
    let _ = read(step);
    assert_eq!(editor.line(), &Text::from_str("acb"));
    assert_eq!(editor.cursor().get(), 2);
}

#[test]
fn vi_count_repeats_a_bound_delete() {
    let mut editor = session(EditorConfig::default());
    editor.execute(Action::Insert(Text::from_str("abcdef"))).unwrap();
    editor.execute(Action::Move(Motion::StartOfLine)).unwrap();
    editor.execute(Action::SetKeymap(KeymapMode::ViCommand)).unwrap();
    let mut driver = ReadDriver::new();
    let mut kinds = Vec::new();
    let pending = start(&mut driver, &mut editor);
    let pending = read(send(&mut driver, &mut editor, &pending, key('3'), &mut kinds));
    assert!(kinds.is_empty());
    let _ = read(send(&mut driver, &mut editor, &pending, key('x'), &mut kinds));
    assert_eq!(editor.line(), &Text::from_str("def"));
}

#[test]
fn escape_waits_then_a_timeout_makes_it_a_meta_prefix() {
    let mut editor = session(EditorConfig::default());
    editor.execute(Action::Insert(Text::from_str("one two"))).unwrap();
    editor.execute(Action::Move(Motion::StartOfLine)).unwrap();
    let mut driver = ReadDriver::new();
    let mut kinds = Vec::new();
    let pending = start(&mut driver, &mut editor);
    let pending = read(send(&mut driver, &mut editor, &pending, key('\u{1b}'), &mut kinds));
    assert_eq!(*pending.request(), ReadEffect::KeySequence);
    let pending = read(send(&mut driver, &mut editor, &pending, ReadOutcome::TimedOut, &mut kinds));
    assert_eq!(*pending.request(), ReadEffect::Input);
    let _ = read(send(&mut driver, &mut editor, &pending, key('f'), &mut kinds));
    assert_eq!(editor.cursor().get(), 4);
    assert_eq!(editor.line(), &Text::from_str("one two"));
}

#[test]
fn escape_followed_by_a_key_runs_the_longer_binding() {
    let mut editor = session(EditorConfig::default());
    editor.execute(Action::Insert(Text::from_str("one two"))).unwrap();
    let mut driver = ReadDriver::new();
    let mut kinds = Vec::new();
    let pending = start(&mut driver, &mut editor);
    let pending = read(send(&mut driver, &mut editor, &pending, key('\u{1b}'), &mut kinds));
    let _ = read(send(&mut driver, &mut editor, &pending, key('b'), &mut kinds));
    assert_eq!(editor.cursor().get(), 4);
}

#[test]
fn end_of_input_completes_the_read() {
    let mut editor = session(EditorConfig::default());
    let mut driver = ReadDriver::new();
    let pending = start(&mut driver, &mut editor);
    match send(&mut driver, &mut editor, &pending, ReadOutcome::EndOfInput, &mut Vec::new()) {
        ReadStep::Complete(result) => assert_eq!(result, ReadResult::EndOfInput),
        _ => panic!("the end of input completes the read"),
    }
}

#[test]
fn a_binding_the_driver_does_not_run_beeps() {
    let mut editor = session(EditorConfig::default());
    let mut driver = ReadDriver::new();
    let mut kinds = Vec::new();
    let pending = start(&mut driver, &mut editor);
    let _ = read(send(&mut driver, &mut editor, &pending, key('\t'), &mut kinds));
    assert_eq!(kinds, vec![DisplayKind::RefreshAndBeep(1)]);
}

#[test]
fn a_plain_read_may_not_time_out() {
    let mut editor = session(EditorConfig::default());
    let mut driver = ReadDriver::new();
    let pending = start(&mut driver, &mut editor);
    assert!(matches!(
        driver.resume_read(&mut editor, &pending, Ok(ReadOutcome::TimedOut)),
        Err(DriverError::UnexpectedTimeout)
    ));
    assert_eq!(editor.terminal_mode(), TerminalMode::Cooked);
}

#[test]
fn an_interrupt_is_propagated_then_completes_the_read() {
    let mut editor = session(EditorConfig::default());
    let mut driver = ReadDriver::new();
    let pending = start(&mut driver, &mut editor);
    let Ok(ReadStep::Signal(signal)) =
        driver.resume_read(&mut editor, &pending, Ok(ReadOutcome::Signal(Signal::Interrupt)))
    else {
        panic!("the signal is propagated");
    };
    assert_eq!(signal.request().signal, Signal::Interrupt);
    assert_eq!(editor.terminal_mode(), TerminalMode::Cooked);
    match driver.resume_signal(&mut editor, &signal, Ok(())) {
        Ok(ReadStep::Complete(result)) => {
            assert_eq!(result, ReadResult::Interrupted(ReadInterrupt::Signal(Signal::Interrupt)))
        }
        _ => panic!("the interrupt completes the read"),
    }
}

#[test]
fn a_macro_binding_replays_its_units() {
    let mut editor = session(EditorConfig::default());
    editor.bind(
        KeymapMode::Emacs,
        KeySequence::new(Text::from_str("q")).unwrap(),
        Binding::Macro(Text::from_str("hi")),
    );
    let mut driver = ReadDriver::new();
    let pending = start(&mut driver, &mut editor);
    let _ = read(send(&mut driver, &mut editor, &pending, key('q'), &mut Vec::new()));
    assert_eq!(editor.line(), &Text::from_str("hi"));
}

#[test]
fn quoted_insert_inserts_a_control_unit() {
    let mut editor = session(EditorConfig::default());
    let mut driver = ReadDriver::new();
    let mut kinds = Vec::new();
    let pending = start(&mut driver, &mut editor);
    let pending = read(send(&mut driver, &mut editor, &pending, key('\u{16}'), &mut kinds));
    assert_eq!(editor.terminal_mode(), TerminalMode::Quoted);
    let _ = read(send(&mut driver, &mut editor, &pending, key('\u{1}'), &mut kinds));
    assert_eq!(editor.line(), &Text::from_str("\u{1}"));
    assert_eq!(editor.terminal_mode(), TerminalMode::Editing);
}

#[test]
fn character_buffering_returns_each_unit() {
    let config = EditorConfig::default().with_buffering(Buffering::Character);
    let mut editor = session(config);
    let mut driver = ReadDriver::new();
    let pending = start(&mut driver, &mut editor);
    match send(&mut driver, &mut editor, &pending, ReadOutcome::Bytes(b"xy".to_vec()), &mut Vec::new()) {
        ReadStep::Complete(result) => assert_eq!(result, ReadResult::Character(TextUnit::Scalar('x'))),
        _ => panic!("a unit completes the read"),
    }
    let step = driver.begin(&mut editor).unwrap();
    let mut kinds = Vec::new();
    match settle(&mut driver, &mut editor, step, &mut kinds) {
        ReadStep::Complete(result) => assert_eq!(result, ReadResult::Character(TextUnit::Scalar('y'))),
        _ => panic!("the unit kept from the last read completes the next one"),
    }
}

#[test]
fn vi_escape_enters_command_mode_and_append_resumes_insertion() {
    let config = EditorConfig::default().with_editing_mode(EditingMode::Vi);
    let mut editor = session(config);
    let mut driver = ReadDriver::new();
    let mut kinds = Vec::new();
    let pending = start(&mut driver, &mut editor);
    let pending = read(send(&mut driver, &mut editor, &pending, ReadOutcome::Bytes(b"ab".to_vec()), &mut kinds));
    let pending = read(send(&mut driver, &mut editor, &pending, key('\u{1b}'), &mut kinds));
    assert_eq!(editor.keymap_mode(), KeymapMode::ViCommand);
    assert_eq!(editor.cursor().get(), 1);
    let pending = read(send(&mut driver, &mut editor, &pending, key('A'), &mut kinds));
    assert_eq!(editor.keymap_mode(), KeymapMode::ViInsert);
    assert_eq!(editor.cursor().get(), 2);
    let _ = read(send(&mut driver, &mut editor, &pending, key('c'), &mut kinds));
    assert_eq!(editor.line(), &Text::from_str("abc"));
}

#[test]
fn vi_character_search_finds_and_repeats() {
    let mut editor = session(EditorConfig::default());
    editor.execute(Action::Insert(Text::from_str("a,b,c"))).unwrap();
    editor.execute(Action::Move(Motion::StartOfLine)).unwrap();
    editor.execute(Action::SetKeymap(KeymapMode::ViCommand)).unwrap();
    let mut driver = ReadDriver::new();
    let mut kinds = Vec::new();
    let pending = start(&mut driver, &mut editor);
    let pending = read(send(&mut driver, &mut editor, &pending, key('f'), &mut kinds));
    assert!(kinds.is_empty());
    let pending = read(send(&mut driver, &mut editor, &pending, key(','), &mut kinds));
    assert_eq!(editor.cursor().get(), 1);
    let pending = read(send(&mut driver, &mut editor, &pending, key(';'), &mut kinds));
    assert_eq!(editor.cursor().get(), 3);
    let pending = read(send(&mut driver, &mut editor, &pending, key(','), &mut kinds));
    assert_eq!(editor.cursor().get(), 1);
    let _ = read(send(&mut driver, &mut editor, &pending, key(','), &mut kinds));
    assert_eq!(kinds.last(), Some(&DisplayKind::RefreshAndBeep(1)));
}
