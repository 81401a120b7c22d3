use std::io::{self, Write};

use nshedit::domain::{Prompt, ScreenCell, ScreenSize, Text, TextIndex, TextUnit};
use nshedit::editor::capability::TerminalProfile;
use nshedit::editor::render::{
    Emit, FinishEcho, PhysicalRegion, RegionOrigin, RenderError, RenderSummary, State, Step,
};

// Capabilities of the profiles used here hold no parameters, so expanding
// one gives its bytes unchanged; only the padding is applied.
fn realize_emits(profile: &TerminalProfile, emits: &[Emit], out: &mut Vec<u8>) {
    for emit in emits {
        match emit {
            Emit::Bytes(bytes) => out.extend_from_slice(bytes),
            Emit::Capability(kind) => {
                let capability = profile.capability(*kind).expect("a planned capability exists");
                assert!(!capability.contains(&b'%'));
                profile.append_padded(out, capability, 1);
            }
        }
    }
}

fn realize(profile: &TerminalProfile, steps: &[Step]) -> Vec<u8> {
    let mut out = Vec::new();
    for step in steps {
        match step {
            Step::Emit(emit) => realize_emits(profile, std::slice::from_ref(emit), &mut out),
            Step::Shorter(left, restart) => {
                let mut first = Vec::new();
                realize_emits(profile, left, &mut first);
                let mut second = Vec::new();
                realize_emits(profile, restart, &mut second);
                out.extend(if first.len() <= second.len() { first } else { second });
            }
        }
    }
    out
}

struct FailingWriter {
    limit: usize,
    written: usize,
    fail_flush: bool,
}

impl Write for FailingWriter {
    fn write(&mut self, bytes: &[u8]) -> io::Result<usize> {
        if self.written >= self.limit {
            return Err(io::Error::other("write failed"));
        }
        let count = bytes.len().min(self.limit - self.written);
        self.written += count;
        Ok(count)
    }

    fn flush(&mut self) -> io::Result<()> {
        if self.fail_flush {
            Err(io::Error::other("flush failed"))
        } else {
            Ok(())
        }
    }
}

fn present(
    state: &mut State,
    left: &Prompt,
    right: Option<&Prompt>,
    line: &Text,
    cursor: TextIndex,
    output: &mut dyn Write,
) -> Result<RenderSummary, RenderError> {
    let plan = state.plan_present(left, right, line, cursor)?;
    let bytes = realize(state.profile().unwrap(), plan.steps());
    match output.write_all(&bytes).and_then(|()| output.flush()) {
        Ok(()) => Ok(state.commit_present(plan, bytes.len())),
        Err(error) => {
            state.present_failed(&plan);
            Err(RenderError::Io(error))
        }
    }
}

fn finish_line(
    state: &mut State,
    echo: Option<&FinishEcho>,
    output: &mut dyn Write,
) -> Result<usize, RenderError> {
    let plan = state.plan_finish(echo)?;
    let bytes = realize(state.profile().unwrap(), plan.steps());
    match output.write_all(&bytes).and_then(|()| output.flush()) {
        Ok(()) => {
            state.commit_finish();
            Ok(bytes.len())
        }
        Err(error) => {
            state.finish_failed(&plan);
            Err(RenderError::Io(error))
        }
    }
}

fn configured(profile: TerminalProfile, rows: usize, columns: usize) -> State {
    let mut state = State::new();
    state.configure(profile, ScreenSize::new(rows, columns).unwrap());
    state
}

fn prompt(text: &str) -> Prompt {
    Prompt::from_text(Text::from_str(text))
}

fn text(s: &str) -> Text {
    Text::from_str(s)
}

fn no_region() -> PhysicalRegion {
    PhysicalRegion { origin: RegionOrigin::Unanchored, extent: 0 }
}

#[test]
fn ansi_frame_commits_after_flush() {
    let mut state = configured(TerminalProfile::ansi(), 2, 10);
    let line = text("abc");
    let mut output = Vec::new();
    let summary = present(&mut state, &prompt("p> "), None, &line, line.index(2).unwrap(), &mut output).unwrap();

    assert!(!output.windows(4).any(|window| window == b"\x1b[2J"));
    assert!(output.windows(6).any(|window| window == b"p> abc"));
    assert_eq!(summary.cursor().column(), 5);
    assert_eq!(state.cursor(), Some(summary.cursor()));
    let first = summary.size().position(0, 0).unwrap();
    assert!(matches!(state.screen().unwrap().get(first), Ok(ScreenCell::Glyph(_))));
}

#[test]
fn addressed_frames_diff_from_first_change() {
    let mut state = configured(TerminalProfile::ansi(), 2, 20);
    let left = prompt("> ");
    let mut step = |state: &mut State, line: &str, cursor: usize| {
        let mut output = Vec::new();
        let line = text(line);
        present(state, &left, None, &line, line.index(cursor).unwrap(), &mut output).unwrap();
        output
    };

    assert_eq!(step(&mut state, "", 0), b"\r\x1b7\x1b8> \x1b[K");
    assert_eq!(step(&mut state, "h", 1), b"h");
    assert_eq!(step(&mut state, "hello", 5), b"ello");
    assert_eq!(step(&mut state, "hallo", 2), b"\x08\x08\x08\x08allo\x08\x08\x08");
    assert_eq!(step(&mut state, "hall", 4), b"\x1b[C\x1b[C\x1b[K");
}

#[test]
fn anchors_region_at_current_line() {
    let mut state = configured(TerminalProfile::ansi(), 3, 4);
    let line = text("abcd");
    let prefix = b"host output on earlier rows\r\n";
    let mut output = prefix.to_vec();
    let summary =
        present(&mut state, &prompt(">"), None, &line, line.index(line.len()).unwrap(), &mut output).unwrap();

    assert_eq!(&output[..prefix.len()], prefix);
    assert_eq!(&output[prefix.len()..], b"\r\r\n\x1b[A\x1b7\x1b8>abc\x1b8\x1b[Bd\x1b[K");
    assert_eq!(summary.rows_used(), 2);
}

#[test]
fn finish_descends_past_wrapped_region() {
    let mut state = configured(TerminalProfile::ansi(), 5, 4);
    let line = text("abcde");
    present(&mut state, &prompt("p\n> "), None, &line, line.index(line.len()).unwrap(), &mut Vec::new()).unwrap();
    assert_eq!(state.region().unwrap().extent, 3);

    let mut output = Vec::new();
    assert_eq!(finish_line(&mut state, None, &mut output).unwrap(), 9);

    assert_eq!(output, b"\x1b8\x1b[B\x1b[B\n");
    assert_eq!(state.region(), Some(no_region()));
    assert_eq!(state.rows_used(), Some(0));
    assert!(state.screen().unwrap().cells().iter().all(|cell| cell == &ScreenCell::Blank));
}

#[test]
fn failed_finish_retains_region() {
    let mut state = configured(TerminalProfile::ansi(), 5, 4);
    let line = text("abcd");
    present(&mut state, &prompt("p\n> "), None, &line, line.index(line.len()).unwrap(), &mut Vec::new()).unwrap();
    let before_screen = state.screen().unwrap().clone();
    let before_cursor = state.cursor();
    let before_region = state.region().unwrap();

    let mut writer = FailingWriter { limit: 3, written: 0, fail_flush: false };
    let echo = FinishEcho::new(TextUnit::Scalar('\u{4}'));
    assert!(matches!(finish_line(&mut state, Some(&echo), &mut writer), Err(RenderError::Io(_))));

    assert_eq!(state.screen(), Some(&before_screen));
    assert_eq!(state.cursor(), before_cursor);
    assert_eq!(state.region(), Some(before_region));
    assert_eq!(state.damaged(), Some(true));

    let mut output = Vec::new();
    finish_line(&mut state, Some(&echo), &mut output).unwrap();
    assert_eq!(output, b"\x1b8\x1b[B\x1b[B\x1b[C\x1b[C^D\x1b8\x1b[B\x1b[B\n");
    assert_eq!(state.region(), Some(no_region()));
}

#[test]
fn failed_reanchor_loses_origin() {
    let mut state = configured(TerminalProfile::ansi(), 5, 4);
    let line = Text::new();
    present(&mut state, &prompt("p\n>>>"), None, &line, line.index(0).unwrap(), &mut Vec::new()).unwrap();
    let before_screen = state.screen().unwrap().clone();
    let before_extent = state.region().unwrap().extent;

    let mut writer = FailingWriter { limit: 3, written: 0, fail_flush: false };
    let echo = FinishEcho::new(TextUnit::Scalar('\u{4}'));
    assert!(matches!(finish_line(&mut state, Some(&echo), &mut writer), Err(RenderError::Io(_))));

    assert_eq!(state.screen(), Some(&before_screen));
    assert_eq!(state.region().unwrap().extent, before_extent);
    assert_eq!(state.region().unwrap().origin, RegionOrigin::Lost);
    assert_eq!(state.damaged(), Some(true));
    assert!(matches!(
        finish_line(&mut state, Some(&echo), &mut Vec::new()),
        Err(RenderError::RegionOriginUnavailable)
    ));
}

#[test]
fn damage_stays_within_owned_rows() {
    let mut state = configured(TerminalProfile::ansi(), 4, 4);
    let line = text("abcd");
    present(&mut state, &prompt(">"), None, &line, line.index(line.len()).unwrap(), &mut Vec::new()).unwrap();

    state.damage();
    let mut output = Vec::new();
    present(&mut state, &prompt(">"), None, &line, line.index(line.len()).unwrap(), &mut output).unwrap();

    assert_eq!(output, b"\x1b8>abc\x1b8\x1b[Bd\x1b[K");
    assert_eq!(output.windows(3).filter(|window| *window == b"\x1b[K").count(), 1);
    assert!(!output.windows(4).any(|window| window == b"\x1b[2J"));
}

#[test]
fn resize_repairs_high_water_rows() {
    let mut state = configured(TerminalProfile::ansi(), 3, 4);
    let line = text("abcd");
    present(&mut state, &prompt(">"), None, &line, line.index(line.len()).unwrap(), &mut Vec::new()).unwrap();
    state.resize(ScreenSize::new(1, 8).unwrap()).unwrap();
    assert_eq!(state.region().unwrap().extent, 2);

    let mut output = Vec::new();
    present(&mut state, &prompt(">"), None, &line, line.index(line.len()).unwrap(), &mut output).unwrap();

    assert_eq!(output, b"\x1b8>abcd\x1b[K\r\x1b[B\x1b[K\x1b[A\x1b[C\x1b[C\x1b[C\x1b[C\x1b[C");
    assert_eq!(output.windows(3).filter(|window| *window == b"\x1b[K").count(), 2);
    assert!(!output.windows(4).any(|window| window == b"\x1b[2J"));
}

#[test]
fn reconfigure_preserves_multiline_region() {
    let size = ScreenSize::new(3, 4).unwrap();
    let mut state = configured(TerminalProfile::ansi(), 3, 4);
    let line = text("abcd");
    present(&mut state, &prompt(">"), None, &line, line.index(line.len()).unwrap(), &mut Vec::new()).unwrap();

    state.configure(TerminalProfile::plain(), size);
    let region = state.region().unwrap();
    assert_eq!(region.origin, RegionOrigin::Saved);
    assert_eq!(region.extent, 2);
    let mut output = Vec::new();
    let error =
        present(&mut state, &prompt(">"), None, &line, line.index(line.len()).unwrap(), &mut output).unwrap_err();
    assert!(matches!(error, RenderError::RegionAddressUnavailable { rows: 2 }));
    assert!(output.is_empty());
    assert_eq!(state.region().unwrap().extent, 2);

    state.configure(TerminalProfile::ansi(), size);
    present(&mut state, &prompt(">"), None, &line, line.index(line.len()).unwrap(), &mut output).unwrap();
    assert_eq!(output, b"\x1b8>abc\x1b8\x1b[Bd\x1b[K");
    assert_eq!(state.region(), Some(region));
}

#[test]
fn plain_profile_finishes_saved_row() {
    let size = ScreenSize::new(2, 8).unwrap();
    let mut state = configured(TerminalProfile::ansi(), 2, 8);
    let line = text("line");
    present(&mut state, &prompt("> "), None, &line, line.index(line.len()).unwrap(), &mut Vec::new()).unwrap();
    assert_eq!(state.region().unwrap().extent, 1);

    state.configure(TerminalProfile::plain(), size);
    let mut output = Vec::new();
    finish_line(&mut state, None, &mut output).unwrap();

    assert_eq!(output, b"\n");
    assert_eq!(state.region(), Some(no_region()));
}

#[test]
fn failed_anchor_setup_marks_origin_lost() {
    let mut state = configured(TerminalProfile::ansi(), 2, 10);
    let before = state.screen().unwrap().clone();
    let mut writer = FailingWriter { limit: 1, written: 0, fail_flush: false };
    let error =
        present(&mut state, &Prompt::new(), None, &text("changed"), TextIndex::zero(), &mut writer).unwrap_err();
    assert!(matches!(error, RenderError::Io(_)));
    assert_eq!(state.screen(), Some(&before));
    assert_eq!(state.region().unwrap().origin, RegionOrigin::Lost);

    let error =
        present(&mut state, &Prompt::new(), None, &text("changed"), TextIndex::zero(), &mut Vec::new()).unwrap_err();
    assert!(matches!(error, RenderError::RegionOriginUnavailable));
}

#[test]
fn failed_frame_preserves_committed_state() {
    let mut state = configured(TerminalProfile::ansi(), 2, 10);
    present(&mut state, &Prompt::new(), None, &text("before"), TextIndex::zero(), &mut Vec::new()).unwrap();
    let before = state.screen().unwrap().clone();
    let region = state.region().unwrap();

    let mut writer = FailingWriter { limit: 3, written: 0, fail_flush: false };
    assert!(present(&mut state, &Prompt::new(), None, &text("changed"), TextIndex::zero(), &mut writer).is_err());
    assert_eq!(state.screen(), Some(&before));
    assert_eq!(state.region().unwrap().origin, region.origin);

    let mut writer = FailingWriter { limit: usize::MAX, written: 0, fail_flush: true };
    assert!(present(&mut state, &Prompt::new(), None, &text("changed"), TextIndex::zero(), &mut writer).is_err());
    assert_eq!(state.screen(), Some(&before));
}

#[test]
fn plans_plain_incremental_transitions() {
    let mut state = configured(TerminalProfile::plain(), 1, 20);
    let left = prompt("> ");
    let mut step = |state: &mut State, line: &str, cursor: usize| {
        let mut output = Vec::new();
        let line = text(line);
        present(state, &left, None, &line, line.index(cursor).unwrap(), &mut output).unwrap();
        output
    };

    assert_eq!(step(&mut state, "", 0), b"> ");
    assert_eq!(step(&mut state, "h", 1), b"h");
    assert_eq!(step(&mut state, "hello", 5), b"ello");
    assert_eq!(step(&mut state, "hello", 0), b"\r> ");
    assert_eq!(step(&mut state, "hello", 5), b"hello");
    assert_eq!(step(&mut state, "hello", 4), b"\x08");
    assert_eq!(step(&mut state, "hell", 4), b"\r> hell \x08");
    assert_eq!(step(&mut state, "hell", 4), b"\r> hell");
    assert_eq!(step(&mut state, "hellworld", 9), b"world");
    assert_eq!(step(&mut state, "", 0), b"\r>          \r> ");
}

#[test]
fn plain_profile_rejects_multiline() {
    let mut state = configured(TerminalProfile::plain(), 2, 4);
    let line = text("long line");
    let error =
        present(&mut state, &Prompt::new(), None, &line, line.index(line.len()).unwrap(), &mut Vec::new()).unwrap_err();
    assert!(matches!(error, RenderError::RegionAddressUnavailable { .. }));
}

#[test]
fn resize_discards_the_old_image() {
    let mut state = configured(TerminalProfile::ansi(), 2, 4);
    state.resize(ScreenSize::new(3, 5).unwrap()).unwrap();
    assert_eq!(state.screen().unwrap().size().rows(), 3);
    assert!(state.screen().unwrap().cells().iter().all(|cell| cell == &ScreenCell::Blank));
}

#[test]
fn beep_uses_the_safe_writer() {
    let state = configured(TerminalProfile::plain(), 1, 8);
    let steps = state.plan_beep().unwrap();
    let output = realize(state.profile().unwrap(), &steps);
    assert_eq!(output.len(), 1);
    assert_eq!(output, b"\x07");
}

#[test]
fn nothing_renders_before_a_display_is_configured() {
    let mut state = State::new();
    assert!(matches!(state.plan_beep(), Err(RenderError::DisplayNotConfigured)));
    assert!(matches!(state.plan_finish(None), Err(RenderError::DisplayNotConfigured)));
    assert!(matches!(
        state.plan_present(&Prompt::new(), None, &Text::new(), TextIndex::zero()),
        Err(RenderError::DisplayNotConfigured)
    ));
    assert!(matches!(state.resize(ScreenSize::new(1, 1).unwrap()), Err(RenderError::DisplayNotConfigured)));
    state.redraw();
    state.damage();
    assert!(state.profile().is_none());
    assert!(state.cursor().is_none());
}

#[test]
fn planning_a_cursor_past_the_line_is_refused() {
    let state = configured(TerminalProfile::ansi(), 2, 10);
    let line = text("ab");
    let past = text("abcd").index(4).unwrap();
    assert!(matches!(
        state.plan_present(&Prompt::new(), None, &line, past),
        Err(RenderError::InvalidState(_))
    ));
}

#[test]
fn a_redraw_rewrites_the_row() {
    let mut state = configured(TerminalProfile::ansi(), 2, 10);
    let line = text("ab");
    present(&mut state, &prompt("> "), None, &line, line.index(2).unwrap(), &mut Vec::new()).unwrap();
    state.redraw();
    let mut output = Vec::new();
    present(&mut state, &prompt("> "), None, &line, line.index(2).unwrap(), &mut output).unwrap();
    assert_eq!(output, b"\x08\x08\x08\x08> ab\x1b[K");
}

#[test]
fn echoes_draw_controls_with_a_caret() {
    let echo = FinishEcho::new(TextUnit::Scalar('\u{4}'));
    assert_eq!(echo.as_bytes(), &b"^D".to_vec());
    assert_eq!(echo.columns(), 2);
    let echo = FinishEcho::new(TextUnit::Scalar('\u{7f}'));
    assert_eq!(echo.as_bytes(), &b"^?".to_vec());
    let echo = FinishEcho::new(TextUnit::Scalar('\u{85}'));
    assert_eq!(echo.as_bytes(), &"^\u{c5}".as_bytes().to_vec());
    let echo = FinishEcho::new(TextUnit::Scalar('é'));
    assert_eq!(echo.as_bytes(), &"é".as_bytes().to_vec());
    assert_eq!(echo.columns(), 1);
    let echo = FinishEcho::new(TextUnit::RawByte(0x1b));
    assert_eq!(echo.as_bytes(), &b"^[".to_vec());
    assert_eq!(echo.columns(), 2);
    let echo = FinishEcho::new(TextUnit::RawByte(0xff));
    assert_eq!(echo.as_bytes(), &vec![0xff]);
    assert_eq!(echo.columns(), 1);
}

#[test]
fn presenting_an_unchanged_frame_sends_nothing() {
    let mut state = configured(TerminalProfile::ansi(), 3, 6);
    let line = text("hello world");
    let cursor = line.index(3).unwrap();
    present(&mut state, &prompt("> "), None, &line, cursor, &mut Vec::new()).unwrap();
    let mut output = Vec::new();
    let summary = present(&mut state, &prompt("> "), None, &line, cursor, &mut output).unwrap();
    assert!(output.is_empty());
    assert_eq!(summary.bytes_written(), 0);
    assert_eq!(summary.rows_used(), 3);
}

#[test]
fn finish_echo_uses_display_columns() {
    let control = FinishEcho::new(TextUnit::Scalar('\u{4}'));
    assert_eq!(control.as_bytes().as_slice(), b"^D");
    assert_eq!(control.columns(), 2);

    let utf8_control = FinishEcho::new(TextUnit::Scalar('\u{85}'));
    assert_eq!(utf8_control.as_bytes().as_slice(), "^\u{c5}".as_bytes());
    assert_eq!(utf8_control.columns(), 2);

    let wide = FinishEcho::new(TextUnit::Scalar('界'));
    assert_eq!(wide.as_bytes().as_slice(), "界".as_bytes());
    assert_eq!(wide.columns(), 2);

    let combining = FinishEcho::new(TextUnit::Scalar('\u{301}'));
    assert_eq!(combining.as_bytes().as_slice(), "\u{301}".as_bytes());
    assert_eq!(combining.columns(), 0);
}
