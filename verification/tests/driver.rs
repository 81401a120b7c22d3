use std::io;

use nshedit::domain::{
    Action, ArgumentCommand, Direction, EditTarget, EditorConfig, KeymapMode, Motion, Prompt,
    RepeatCount, ScreenSize, TerminalMode, Text, TextUnit,
};
use nshedit::editor::capability::TerminalProfile;
use nshedit::editor::driver::{
    ArgumentStep, Display, DisplayKind, DriverError, Phase, ReadDriver, ReadInterrupt, ReadResult,
    ReadStep, RepeatArgument,
};
use nshedit::editor::effect::{HostFailure, PromptSide, ReadEffect};
use nshedit::editor::render::RenderError;
use nshedit::editor::{Editor, TerminalControl};

struct QuietTerminal;

impl TerminalControl for QuietTerminal {
    fn activate(&mut self, _config: EditorConfig) -> io::Result<()> {
        Ok(())
    }

    fn set_mode(&mut self, _mode: TerminalMode) -> io::Result<()> {
        Ok(())
    }

    fn restore(&mut self) -> io::Result<()> {
        Ok(())
    }
}

fn configured_editor() -> Editor<QuietTerminal> {
    let mut editor = Editor::new(EditorConfig::default(), QuietTerminal).unwrap();
    editor.configure_display(TerminalProfile::plain(), ScreenSize::new(2, 20).unwrap());
    editor
}

fn scalar(character: char) -> TextUnit {
    TextUnit::Scalar(character)
}

#[test]
fn vi_count_digits_build_a_decimal_argument() {
    let mut driver = ReadDriver::new();
    assert_eq!(driver.work_limit(), 4096);
    for digit in ['1', '2', '3'] {
        assert!(driver.capture_count(KeymapMode::ViCommand, scalar(digit)).unwrap());
    }
    assert_eq!(driver.repeat_argument(), Some(RepeatArgument::Explicit(123)));
    assert_eq!(driver.take_repeat(None), 123);
    assert_eq!(driver.repeat_argument(), None);
    assert_eq!(driver.take_repeat(None), 1);
    assert_eq!(driver.take_optional_repeat(None), None);
    assert_eq!(driver.take_repeat(Some(7)), 7);
}

#[test]
fn zero_mode_and_pending_keys_do_not_count() {
    let mut driver = ReadDriver::new();
    assert!(!driver.capture_count(KeymapMode::ViCommand, scalar('0')).unwrap());
    assert!(!driver.capture_count(KeymapMode::Emacs, scalar('4')).unwrap());
    assert!(!driver.capture_count(KeymapMode::ViCommand, TextUnit::RawByte(b'4')).unwrap());
    assert!(driver.capture_count(KeymapMode::ViCommand, scalar('4')).unwrap());
    assert!(driver.capture_count(KeymapMode::ViCommand, scalar('0')).unwrap());
    assert_eq!(driver.repeat_argument(), Some(RepeatArgument::Explicit(40)));
    driver.push_key(scalar('d'));
    assert!(!driver.capture_count(KeymapMode::ViCommand, scalar('2')).unwrap());
    assert_eq!(driver.key_sequence(), &[scalar('d')][..]);
}

#[test]
fn counts_past_the_work_limit_are_refused() {
    let mut driver = ReadDriver::new().with_work_limit(5);
    assert!(driver.capture_count(KeymapMode::ViCommand, scalar('4')).unwrap());
    match driver.capture_count(KeymapMode::ViCommand, scalar('2')) {
        Err(DriverError::WorkLimitExceeded { limit }) => assert_eq!(limit, 5),
        other => panic!("unexpected {other:?}"),
    }
    assert_eq!(driver.repeat_argument(), Some(RepeatArgument::Explicit(4)));
}

#[test]
fn argument_commands_start_extend_multiply_and_restart() {
    let mut driver = ReadDriver::new();
    assert_eq!(
        driver.apply_argument(ArgumentCommand::DigitOrInsert, scalar('3')).unwrap(),
        ArgumentStep::InsertInvoking
    );
    assert_eq!(driver.repeat_argument(), None);
    assert_eq!(
        driver.apply_argument(ArgumentCommand::StartDigit, scalar('7')).unwrap(),
        ArgumentStep::Continue
    );
    assert_eq!(driver.repeat_argument(), Some(RepeatArgument::Explicit(7)));
    let four = RepeatCount::new(4).unwrap();
    assert_eq!(
        driver.apply_argument(ArgumentCommand::Multiply(four), scalar('u')).unwrap(),
        ArgumentStep::Continue
    );
    assert_eq!(driver.repeat_argument(), Some(RepeatArgument::Multiplied(28)));
    assert_eq!(
        driver.apply_argument(ArgumentCommand::DigitOrInsert, TextUnit::RawByte(0xB5)).unwrap(),
        ArgumentStep::Continue
    );
    assert_eq!(driver.repeat_argument(), Some(RepeatArgument::Explicit(5)));
    assert_eq!(
        driver.apply_argument(ArgumentCommand::DigitOrInsert, scalar('1')).unwrap(),
        ArgumentStep::Continue
    );
    assert_eq!(driver.repeat_argument(), Some(RepeatArgument::Explicit(51)));
    assert_eq!(
        driver.apply_argument(ArgumentCommand::StartDigit, scalar('x')).unwrap(),
        ArgumentStep::Beep
    );
    assert_eq!(driver.take_beeps(), 1);
    assert_eq!(driver.take_beeps(), 0);
}

#[test]
fn multiplying_past_the_work_limit_fails_the_read() {
    let mut driver = ReadDriver::new().with_work_limit(10);
    let four = RepeatCount::new(4).unwrap();
    driver.apply_argument(ArgumentCommand::Multiply(four), scalar('u')).unwrap();
    assert_eq!(driver.repeat_argument(), Some(RepeatArgument::Multiplied(4)));
    match driver.apply_argument(ArgumentCommand::Multiply(four), scalar('u')) {
        Err(DriverError::WorkLimitExceeded { limit }) => assert_eq!(limit, 10),
        other => panic!("unexpected {other:?}"),
    }
    assert_eq!(driver.repeat_argument(), None);
    assert_eq!(driver.phase(), Phase::Idle);
}

#[test]
fn meta_prefix_sets_the_high_bit_once() {
    let mut driver = ReadDriver::new();
    assert_eq!(driver.take_meta_unit(scalar('a')), scalar('a'));
    driver.set_meta_next();
    assert!(driver.meta_pending());
    assert_eq!(driver.take_meta_unit(scalar('a')), scalar('\u{e1}'));
    assert!(!driver.meta_pending());
    driver.set_meta_next();
    assert_eq!(driver.take_meta_unit(TextUnit::RawByte(0x31)), TextUnit::RawByte(0xB1));
    driver.set_meta_next();
    assert_eq!(driver.take_meta_unit(scalar('\u{3b1}')), scalar('\u{3b1}'));
}

#[test]
fn reading_without_a_display_fails() {
    let mut editor = Editor::new(EditorConfig::default(), QuietTerminal).unwrap();
    let mut driver = ReadDriver::new();
    match driver.begin(&mut editor) {
        Err(DriverError::Render(RenderError::DisplayNotConfigured)) => {}
        Err(other) => panic!("unexpected {other:?}"),
        Ok(_) => panic!("a read began without a display"),
    }
    assert_eq!(driver.phase(), Phase::Idle);
}

#[test]
fn a_read_asks_for_size_prompts_display_then_input() {
    let mut editor = configured_editor();
    let mut driver = ReadDriver::new();
    let Ok(ReadStep::Resize(resize)) = driver.begin(&mut editor) else {
        panic!("a read begins with a size request");
    };
    assert!(matches!(driver.begin(&mut editor), Err(DriverError::Busy)));
    let Ok(ReadStep::Prompt(left)) =
        driver.resume_resize(&mut editor, &resize, Ok(ScreenSize::new(2, 30).unwrap()))
    else {
        panic!("a size is followed by the left prompt");
    };
    assert_eq!(left.request().side, PromptSide::Left);
    assert_eq!(editor.screen().unwrap().size(), ScreenSize::new(2, 30).unwrap());
    let prompt = Prompt::from_text(Text::from_str("$ "));
    let Ok(ReadStep::Prompt(right)) = driver.resume_prompt(&mut editor, &left, Ok(prompt.clone()))
    else {
        panic!("the left prompt is followed by the right one");
    };
    assert_eq!(right.request().side, PromptSide::Right);
    assert!(matches!(
        driver.resume_prompt(&mut editor, &left, Ok(Prompt::new())),
        Err(DriverError::StaleStep)
    ));
    let Ok(ReadStep::Display(display)) =
        driver.resume_prompt(&mut editor, &right, Err(HostFailure::Unavailable))
    else {
        panic!("both prompts make a display");
    };
    assert_eq!(display.kind(), DisplayKind::Refresh);
    assert_eq!(display.left(), &prompt);
    assert!(display.right().is_none());
    let Ok(ReadStep::Read(read)) = driver.display(&mut editor, &display, Ok(())) else {
        panic!("a shown display is followed by a read");
    };
    assert_eq!(*read.request(), ReadEffect::Input);
    assert!(matches!(
        driver.display(&mut editor, &display, Ok(())),
        Err(DriverError::StaleStep)
    ));
}

#[test]
fn an_interrupted_size_request_completes_the_read() {
    let mut editor = configured_editor();
    let mut driver = ReadDriver::new();
    let Ok(ReadStep::Resize(resize)) = driver.begin(&mut editor) else {
        panic!("a read begins with a size request");
    };
    match driver.resume_resize(&mut editor, &resize, Err(HostFailure::Interrupted)) {
        Ok(ReadStep::Complete(result)) => {
            assert_eq!(result, ReadResult::Interrupted(ReadInterrupt::Host))
        }
        _ => panic!("an interruption completes the read"),
    }
    assert_eq!(driver.phase(), Phase::Idle);
    assert_eq!(editor.terminal_mode(), TerminalMode::Cooked);
    assert!(matches!(driver.begin(&mut editor), Ok(ReadStep::Resize(_))));
}

#[test]
fn a_failed_emission_fails_the_read() {
    let mut editor = configured_editor();
    let mut driver = ReadDriver::new();
    let Ok(ReadStep::Resize(resize)) = driver.begin(&mut editor) else {
        panic!("a read begins with a size request");
    };
    let Ok(ReadStep::Prompt(left)) =
        driver.resume_resize(&mut editor, &resize, Err(HostFailure::Unavailable))
    else {
        panic!("an unavailable size keeps the display");
    };
    let Ok(ReadStep::Prompt(right)) =
        driver.resume_prompt(&mut editor, &left, Err(HostFailure::Cancelled))
    else {
        panic!("a cancelled prompt counts as empty");
    };
    match driver.resume_prompt(&mut editor, &right, Err(HostFailure::Failed("no".into()))) {
        Err(DriverError::Host(HostFailure::Failed(text))) => assert_eq!(text, "no"),
        _ => panic!("a failed prompt fails the read"),
    }
    assert_eq!(driver.phase(), Phase::Idle);
    let failure = RenderError::DisplayNotConfigured;
    let mut driver = ReadDriver::new();
    let Ok(ReadStep::Resize(resize)) = driver.begin(&mut editor) else {
        panic!("the driver is reusable");
    };
    let Ok(ReadStep::Prompt(left)) =
        driver.resume_resize(&mut editor, &resize, Err(HostFailure::Unavailable))
    else {
        panic!("prompt");
    };
    let Ok(ReadStep::Prompt(right)) = driver.resume_prompt(&mut editor, &left, Ok(Prompt::new()))
    else {
        panic!("prompt");
    };
    let Ok(ReadStep::Display(display)) = driver.resume_prompt(&mut editor, &right, Ok(Prompt::new()))
    else {
        panic!("display");
    };
    assert!(matches!(
        driver.display(&mut editor, &display, Err(failure)),
        Err(DriverError::Render(RenderError::DisplayNotConfigured))
    ));
    assert_eq!(driver.phase(), Phase::Idle);
}

fn editor_with(line: &str) -> Editor<QuietTerminal> {
    let mut editor = configured_editor();
    editor.execute(Action::Insert(Text::from_str(line))).unwrap();
    editor
}

fn display_after_prompts(
    driver: &mut ReadDriver,
    editor: &mut Editor<QuietTerminal>,
    step: Result<ReadStep, DriverError>,
) -> Display {
    let Ok(ReadStep::Prompt(left)) = step else {
        panic!("a command is followed by the left prompt");
    };
    let Ok(ReadStep::Prompt(right)) = driver.resume_prompt(editor, &left, Ok(Prompt::new())) else {
        panic!("then the right prompt");
    };
    let Ok(ReadStep::Display(display)) = driver.resume_prompt(editor, &right, Ok(Prompt::new())) else {
        panic!("then the display");
    };
    display
}

#[test]
fn repeated_insertion_inserts_each_copy() {
    let mut editor = editor_with("ab");
    let mut driver = ReadDriver::new();
    let step = driver.dispatch_action(&mut editor, Action::Insert(Text::from_str("xy")), scalar('x'), 3);
    let display = display_after_prompts(&mut driver, &mut editor, step);
    assert_eq!(display.kind(), DisplayKind::Refresh);
    assert_eq!(editor.line(), &Text::from_str("abxyxyxy"));
    assert_eq!(editor.cursor().get(), 8);
}

#[test]
fn counted_motion_moves_once_and_beeps_when_stuck() {
    let mut editor = editor_with("abcdef");
    let mut driver = ReadDriver::new();
    let step = driver.dispatch_action(
        &mut editor,
        Action::Move(Motion::Character(Direction::Previous)),
        scalar('b'),
        4,
    );
    let display = display_after_prompts(&mut driver, &mut editor, step);
    assert_eq!(display.kind(), DisplayKind::Refresh);
    assert_eq!(editor.cursor().get(), 2);

    let mut editor = editor_with("");
    let mut driver = ReadDriver::new();
    let step = driver.dispatch_action(
        &mut editor,
        Action::Move(Motion::Character(Direction::Previous)),
        scalar('b'),
        2,
    );
    let display = display_after_prompts(&mut driver, &mut editor, step);
    assert_eq!(display.kind(), DisplayKind::RefreshAndBeep(1));
}

#[test]
fn counted_delete_removes_the_run_in_one_edit() {
    let mut editor = editor_with("abcdef");
    let mut driver = ReadDriver::new();
    let step = driver.dispatch_action(
        &mut editor,
        Action::Delete(EditTarget::Character(Direction::Previous)),
        scalar('h'),
        3,
    );
    let _ = display_after_prompts(&mut driver, &mut editor, step);
    assert_eq!(editor.line(), &Text::from_str("abc"));
    editor.execute(Action::Undo).unwrap();
    assert_eq!(editor.line(), &Text::from_str("abcdef"));
}

#[test]
fn transposition_at_line_start_moves_and_beeps() {
    let mut editor = editor_with("ab");
    editor
        .execute(Action::Move(Motion::StartOfLine))
        .unwrap();
    let mut driver = ReadDriver::new();
    let step = driver.dispatch_action(&mut editor, Action::TransposeCharacters, scalar('t'), 1);
    let display = display_after_prompts(&mut driver, &mut editor, step);
    assert_eq!(display.kind(), DisplayKind::RefreshAndBeep(1));
    assert_eq!(editor.line(), &Text::from_str("ab"));
    assert_eq!(editor.cursor().get(), 1);

    let mut driver = ReadDriver::new();
    let mut editor = editor_with("ab");
    let step = driver.dispatch_action(&mut editor, Action::TransposeCharacters, scalar('t'), 1);
    let _ = display_after_prompts(&mut driver, &mut editor, step);
    assert_eq!(editor.line(), &Text::from_str("ba"));
}

#[test]
fn accepted_line_is_recorded() {
    let mut editor = editor_with("echo hi");
    let mut driver = ReadDriver::new();
    let Ok(ReadStep::RecordHistory(pending)) =
        driver.dispatch_action(&mut editor, Action::AcceptLine, scalar('\n'), 1)
    else {
        panic!("an accepted line is recorded");
    };
    assert_eq!(pending.request().line, Text::from_str("echo hi"));
    let Ok(ReadStep::Display(display)) =
        driver.resume_history_record(&mut editor, &pending, Err(HostFailure::Unavailable))
    else {
        panic!("the line break is shown");
    };
    assert_eq!(display.kind(), DisplayKind::FinishLine);
    match driver.display(&mut editor, &display, Ok(())) {
        Ok(ReadStep::Complete(result)) => {
            assert_eq!(result, ReadResult::Accepted(Text::from_str("echo hi")))
        }
        _ => panic!("the read completes with the line"),
    }
    assert_eq!(editor.terminal_mode(), TerminalMode::Cooked);
}

#[test]
fn end_of_input_on_an_empty_line_echoes_then_completes() {
    let mut editor = editor_with("");
    let mut driver = ReadDriver::new();
    let Ok(ReadStep::Display(display)) =
        driver.dispatch_action(&mut editor, Action::DeleteOrEndOfInput, scalar('d'), 2)
    else {
        panic!("end of input echoes first");
    };
    assert_eq!(display.kind(), DisplayKind::Echo(scalar('d')));
    match driver.display(&mut editor, &display, Ok(())) {
        Ok(ReadStep::Complete(result)) => assert_eq!(result, ReadResult::EndOfInput),
        _ => panic!("the echo completes the read"),
    }
    assert_eq!(driver.phase(), Phase::Idle);
}

#[test]
fn no_repeat_only_refreshes() {
    let mut editor = editor_with("abc");
    let mut driver = ReadDriver::new();
    let step = driver.dispatch_action(&mut editor, Action::Insert(Text::from_str("z")), scalar('z'), 0);
    let _ = display_after_prompts(&mut driver, &mut editor, step);
    assert_eq!(editor.line(), &Text::from_str("abc"));
}

#[test]
fn a_host_served_action_is_refused_with_a_beep() {
    let mut editor = editor_with("ab");
    let mut driver = ReadDriver::new();
    let step = driver.dispatch_action(&mut editor, Action::Complete, scalar('\t'), 1);
    let display = display_after_prompts(&mut driver, &mut editor, step);
    assert_eq!(display.kind(), DisplayKind::RefreshAndBeep(1));
    assert_eq!(editor.line(), &Text::from_str("ab"));
}
