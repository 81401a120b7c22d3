use nshedit::editor::capability::{
    parse_delay, BaudRate, CapabilityKind, Delay, TerminalProfile, TerminfoEntry,
};

fn padded(profile: &TerminalProfile, bytes: &[u8], lines: usize) -> Vec<u8> {
    let mut output = Vec::new();
    profile.append_padded(&mut output, bytes, lines);
    output
}

fn entry_with_bell(bell: &[u8]) -> TerminfoEntry {
    TerminfoEntry {
        bell: Some(bell.to_vec()),
        pad: Some(b".".to_vec()),
        ..TerminfoEntry::default()
    }
}

#[test]
fn terminfo_profile_owns_capabilities() {
    let entry = TerminfoEntry {
        name: Some("test".to_string()),
        save_cursor: Some(b"<save>".to_vec()),
        restore_cursor: Some(b"<restore>".to_vec()),
        cursor_up: Some(b"<up>".to_vec()),
        cursor_down: Some(b"<down>".to_vec()),
        ..TerminfoEntry::default()
    };
    let profile = TerminalProfile::from_terminfo(entry);
    assert_eq!(profile.name(), "test");
    assert!(profile.has_relative_region_addressing());
}

#[test]
fn padding_uses_semantic_baud_rate() {
    let profile = TerminalProfile::from_terminfo(entry_with_bell(b"x$<5/>y"))
        .with_baud_rate(BaudRate::new(9_600));
    let bell = profile.capability(CapabilityKind::Bell).unwrap().clone();
    assert_eq!(padded(&profile, &bell, 1), b"x....y");
}

#[test]
fn malformed_padding_stays_verbatim() {
    let profile = TerminalProfile::from_terminfo(TerminfoEntry {
        bell: Some(b"x$<bad>y$<5".to_vec()),
        ..TerminfoEntry::default()
    });
    let bell = profile.capability(CapabilityKind::Bell).unwrap().clone();
    assert_eq!(padded(&profile, &bell, 1), b"x$<bad>y$<5");
}

#[test]
fn an_entry_without_strings_falls_back_to_ansi_controls() {
    let profile = TerminalProfile::from_terminfo(TerminfoEntry {
        clear_to_end: Some(Vec::new()),
        ..TerminfoEntry::default()
    });
    assert_eq!(profile.name(), "terminfo");
    assert_eq!(profile.capability(CapabilityKind::Bell).unwrap(), &vec![0x07]);
    assert_eq!(profile.capability(CapabilityKind::CarriageReturn).unwrap(), &vec![b'\r']);
    assert_eq!(profile.capability(CapabilityKind::CursorLeft).unwrap(), &vec![0x08]);
    assert!(profile.capability(CapabilityKind::ClearToEndOfLine).is_none());
    assert!(!profile.has_relative_region_addressing());
    assert!(!profile.has_cursor_right());
    assert!(profile.baud_rate().is_none());
}

#[test]
fn the_ansi_and_plain_profiles() {
    let ansi = TerminalProfile::ansi();
    assert_eq!(ansi.name(), "ansi");
    assert!(ansi.has_relative_region_addressing());
    assert!(ansi.has_cursor_right());
    assert_eq!(ansi.capability(CapabilityKind::ClearToEndOfLine).unwrap(), &b"\x1b[K".to_vec());
    assert_eq!(ansi.capability(CapabilityKind::SaveCursor).unwrap(), &b"\x1b7".to_vec());
    let plain = TerminalProfile::plain();
    assert_eq!(plain.name(), "plain");
    assert!(!plain.has_relative_region_addressing());
    assert!(plain.capability(CapabilityKind::CursorUp).is_none());
    assert_eq!(CapabilityKind::ClearToEndOfLine.description(), "clear to end of line");
    assert_eq!(CapabilityKind::CursorRight.description(), "cursor right");
}

#[test]
fn a_zero_rate_is_refused() {
    assert!(BaudRate::new(0).is_none());
    assert_eq!(BaudRate::new(38_400).unwrap().get(), 38_400);
    let profile = TerminalProfile::plain().with_baud_rate(BaudRate::new(1_200));
    assert_eq!(profile.baud_rate().unwrap().get(), 1_200);
}

#[test]
fn delays_are_read_in_tenths_of_a_millisecond() {
    let delay = |body: &[u8]| parse_delay(body, 0, body.len());
    assert_eq!(delay(b"5"), Some(Delay { tenths: 50, per_line: false, mandatory: false }));
    assert_eq!(delay(b"2.5*"), Some(Delay { tenths: 25, per_line: true, mandatory: false }));
    assert_eq!(delay(b"3/*"), Some(Delay { tenths: 30, per_line: true, mandatory: true }));
    assert_eq!(delay(b"99999999999"), Some(Delay { tenths: u32::MAX, per_line: false, mandatory: false }));
    assert_eq!(delay(b""), None);
    assert_eq!(delay(b"x"), None);
    assert_eq!(delay(b"1."), None);
    assert_eq!(delay(b"1.x"), None);
    assert_eq!(delay(b"1**"), None);
    assert_eq!(delay(b"1//"), None);
    assert_eq!(delay(b"1+"), None);
    assert_eq!(parse_delay(b"$<12>", 2, 4), Some(Delay { tenths: 120, per_line: false, mandatory: false }));
}

#[test]
fn per_line_delays_scale_and_optional_ones_yield_to_flow_control() {
    let profile = TerminalProfile::from_terminfo(entry_with_bell(b"$<1*>"))
        .with_baud_rate(BaudRate::new(9_600));
    assert_eq!(padded(&profile, b"$<1*>", 10), b".........");
    assert_eq!(padded(&profile, b"$<1*>", 1), b"");
    assert_eq!(padded(&profile, b"a$<", 1), b"a$<");
    assert_eq!(padded(&profile, b"$", 1), b"$");

    let flow = TerminalProfile::from_terminfo(TerminfoEntry {
        pad: Some(b"#".to_vec()),
        flow_controlled: Some(true),
        ..TerminfoEntry::default()
    })
    .with_baud_rate(BaudRate::new(100_000));
    assert_eq!(padded(&flow, b"a$<1>b", 1), b"ab");
    assert_eq!(padded(&flow, b"a$<1/>b", 1), b"a##########b");

    let no_rate = TerminalProfile::from_terminfo(entry_with_bell(b""));
    assert_eq!(padded(&no_rate, b"a$<100/>b", 1), b"ab");
}
