use std::cell::RefCell;
use std::io::{self, ErrorKind};
use std::rc::Rc;

use nshedit::domain::{
    Action, Buffering, EditingMode, EditorConfig, InputMode, KeymapMode, TerminalMode, Text,
    TextIndex,
};
use nshedit::domain::{Prompt, ScreenSize, TerminalLiteral};
use nshedit::editor::capability::TerminalProfile;
use nshedit::editor::render::{Emit, Step};
use nshedit::editor::{Editor, TerminalControl};

#[derive(Debug, Clone, Copy, PartialEq, Eq)]
enum Event {
    Activate(EditorConfig),
    SetMode(TerminalMode),
    Restore,
}

struct MockTerminal {
    events: Rc<RefCell<Vec<Event>>>,
    fail_activation: bool,
    fail_mode: bool,
    fail_restoration: bool,
}

impl MockTerminal {
    fn recording(events: &Rc<RefCell<Vec<Event>>>) -> Self {
        Self {
            events: Rc::clone(events),
            fail_activation: false,
            fail_mode: false,
            fail_restoration: false,
        }
    }
}

impl TerminalControl for MockTerminal {
    fn activate(&mut self, config: EditorConfig) -> io::Result<()> {
        self.events.borrow_mut().push(Event::Activate(config));
        if self.fail_activation {
            Err(io::Error::other("activation failed"))
        } else {
            Ok(())
        }
    }

    fn set_mode(&mut self, mode: TerminalMode) -> io::Result<()> {
        self.events.borrow_mut().push(Event::SetMode(mode));
        if self.fail_mode {
            Err(io::Error::other("mode change failed"))
        } else {
            Ok(())
        }
    }

    fn restore(&mut self) -> io::Result<()> {
        self.events.borrow_mut().push(Event::Restore);
        if self.fail_restoration {
            Err(io::Error::other("restoration failed"))
        } else {
            Ok(())
        }
    }
}

#[test]
fn finish_restores_exactly_once() {
    let events = Rc::new(RefCell::new(Vec::new()));
    let config = EditorConfig::default()
        .with_editing_mode(EditingMode::Vi)
        .with_buffering(Buffering::Character);
    let editor = Editor::new(config, MockTerminal::recording(&events)).unwrap();

    assert_eq!(editor.config(), config);
    assert!(editor.line().is_empty());
    assert_eq!(editor.cursor(), TextIndex::zero());
    editor.finish().unwrap();
    assert_eq!(*events.borrow(), [Event::Activate(config), Event::Restore]);
}

#[test]
fn finish_reports_restoration_failure() {
    let events = Rc::new(RefCell::new(Vec::new()));
    let mut terminal = MockTerminal::recording(&events);
    terminal.fail_restoration = true;
    let editor = Editor::new(EditorConfig::default(), terminal).unwrap();

    assert_eq!(editor.finish().unwrap_err().kind(), ErrorKind::Other);
    assert_eq!(
        events.borrow().as_slice(),
        [Event::Activate(EditorConfig::default()), Event::Restore]
    );
}

#[test]
fn failed_start_restores_partial_state() {
    let events = Rc::new(RefCell::new(Vec::new()));
    let mut terminal = MockTerminal::recording(&events);
    terminal.fail_activation = true;
    terminal.fail_restoration = true;

    let error = match Editor::new(EditorConfig::default(), terminal) {
        Ok(_) => panic!("failed terminal activation created an editor"),
        Err(error) => error,
    };
    assert_eq!(error.activation().kind(), ErrorKind::Other);
    assert_eq!(error.restoration().unwrap().kind(), ErrorKind::Other);
    assert_eq!(
        events.borrow().as_slice(),
        [Event::Activate(EditorConfig::default()), Event::Restore]
    );
}

#[test]
fn repeated_cleanup_restores_once() {
    let events = Rc::new(RefCell::new(Vec::new()));
    let mut editor =
        Editor::new(EditorConfig::default(), MockTerminal::recording(&events)).unwrap();

    editor.restore_terminal().unwrap();
    editor.restore_terminal().unwrap();
    drop(editor);
    assert_eq!(
        events.borrow().as_slice(),
        [Event::Activate(EditorConfig::default()), Event::Restore]
    );
}

#[test]
fn tty_modes_are_typed_and_transactional() {
    let events = Rc::new(RefCell::new(Vec::new()));
    let mut editor =
        Editor::new(EditorConfig::default(), MockTerminal::recording(&events)).unwrap();

    assert_eq!(editor.terminal_mode(), TerminalMode::Editing);
    editor.set_terminal_mode(TerminalMode::Quoted).unwrap();
    editor.set_terminal_mode(TerminalMode::Quoted).unwrap();
    assert_eq!(editor.terminal_mode(), TerminalMode::Quoted);
    assert_eq!(
        events.borrow().as_slice(),
        [
            Event::Activate(EditorConfig::default()),
            Event::SetMode(TerminalMode::Quoted)
        ]
    );

    let failed_events = Rc::new(RefCell::new(Vec::new()));
    let mut terminal = MockTerminal::recording(&failed_events);
    terminal.fail_mode = true;
    let mut failed = Editor::new(EditorConfig::default(), terminal).unwrap();
    assert!(failed.set_terminal_mode(TerminalMode::Cooked).is_err());
    assert_eq!(failed.terminal_mode(), TerminalMode::Editing);
}

#[test]
fn reconfiguration_preserves_session_state() {
    let events = Rc::new(RefCell::new(Vec::new()));
    let mut editor =
        Editor::new(EditorConfig::default(), MockTerminal::recording(&events)).unwrap();
    editor.execute(Action::Insert(Text::from("line"))).unwrap();
    editor.execute(Action::SetMark).unwrap();

    let config = EditorConfig::default()
        .with_editing_mode(EditingMode::Vi)
        .with_buffering(Buffering::Character);
    editor.reconfigure(config);

    assert_eq!(editor.config(), config);
    assert_eq!(editor.line(), &Text::from("line"));
    let end = editor.line().index(4).unwrap();
    assert_eq!(editor.cursor(), end);
    assert_eq!(editor.mark(), Some(end));
    assert_eq!(editor.input_mode(), InputMode::Insert);
    assert_eq!(editor.keymap_mode(), KeymapMode::ViInsert);
    assert!(editor.can_undo());
}

#[test]
fn restored_editor_refuses_mode_changes() {
    let events = Rc::new(RefCell::new(Vec::new()));
    let mut editor =
        Editor::new(EditorConfig::default(), MockTerminal::recording(&events)).unwrap();
    editor.restore_terminal().unwrap();
    assert_eq!(
        editor.set_terminal_mode(TerminalMode::Cooked).unwrap_err().kind(),
        ErrorKind::Other
    );
    assert!(editor.set_terminal_mode(TerminalMode::Editing).is_ok());
    assert_eq!(editor.terminal_mode(), TerminalMode::Editing);
    editor.finish().unwrap();
    assert_eq!(
        events.borrow().as_slice(),
        [Event::Activate(EditorConfig::default()), Event::Restore]
    );
}

// The ANSI profile's capabilities hold no parameters: each expands to its
// own bytes.
fn realize(profile: &TerminalProfile, steps: &[Step]) -> Vec<u8> {
    let mut out = Vec::new();
    let mut send = |emit: &Emit, out: &mut Vec<u8>| match emit {
        Emit::Bytes(bytes) => out.extend_from_slice(bytes),
        Emit::Capability(kind) => {
            let capability = profile.capability(*kind).unwrap();
            profile.append_padded(out, capability, 1);
        }
    };
    for step in steps {
        match step {
            Step::Emit(emit) => send(emit, &mut out),
            Step::Shorter(left, restart) => {
                let mut first = Vec::new();
                left.iter().for_each(|emit| send(emit, &mut first));
                let mut second = Vec::new();
                restart.iter().for_each(|emit| send(emit, &mut second));
                out.extend(if first.len() <= second.len() { first } else { second });
            }
        }
    }
    out
}

#[test]
fn editor_owns_its_render_state() {
    let events = Rc::new(RefCell::new(Vec::new()));
    let mut editor =
        Editor::new(EditorConfig::default(), MockTerminal::recording(&events)).unwrap();
    editor.configure_display(TerminalProfile::ansi(), ScreenSize::new(2, 12).unwrap());
    editor.execute(Action::Insert(Text::from("line"))).unwrap();
    let mut prompt = Prompt::from_text(Text::from_str("p> "));
    prompt.push_literal(TerminalLiteral::from_bytes(&b"\x1b[1m"[..]));

    let plan = editor.render_to(&prompt, None).unwrap();
    let output = realize(editor.terminal_profile().unwrap(), plan.steps());
    let summary = editor.rendered(plan, output.len());

    assert_eq!(summary.cursor().column(), 7);
    assert_eq!(editor.screen_cursor(), Some(summary.cursor()));
    assert!(output.windows(7).any(|bytes| bytes == b"p> \x1b[1m"));
    assert_eq!(summary.bytes_written(), output.len());
    assert_eq!(editor.screen().unwrap().size(), ScreenSize::new(2, 12).unwrap());
}

#[test]
fn a_display_is_configured_before_it_renders() {
    let events = Rc::new(RefCell::new(Vec::new()));
    let mut editor =
        Editor::new(EditorConfig::default(), MockTerminal::recording(&events)).unwrap();
    assert!(editor.terminal_profile().is_none());
    assert!(editor.screen_cursor().is_none());
    assert!(editor.render_to(&Prompt::new(), None).is_err());
    assert!(editor.beep().is_err());
    assert!(editor.resize_display(ScreenSize::new(2, 2).unwrap()).is_err());
    editor.configure_display(TerminalProfile::plain(), ScreenSize::new(1, 8).unwrap());
    assert_eq!(editor.terminal_profile().unwrap().name(), "plain");
    assert_eq!(editor.beep().unwrap().len(), 1);
    editor.resize_display(ScreenSize::new(1, 4).unwrap()).unwrap();
    assert_eq!(editor.screen().unwrap().size(), ScreenSize::new(1, 4).unwrap());
}
