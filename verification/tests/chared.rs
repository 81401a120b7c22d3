use nshedit::chared::{
    c_delafter1, c_delbefore1, c_gets_begin, c_gets_classify, c_gets_feed, c_hpos, ElLine,
    GetsStep, Keystroke, C_GETS_MAX, EL_BUFSIZ,
};

fn editor(s: &str, at: usize) -> ElLine {
    let units: Vec<u32> = s.chars().map(u32::from).collect();
    ElLine::with_text(&units, at).unwrap()
}

fn text(line: &ElLine) -> String {
    line.buffer[..line.lastchar]
        .iter()
        .filter_map(|&c| char::from_u32(c))
        .collect()
}

fn chars(s: &[u32]) -> String {
    s.iter().filter_map(|&c| char::from_u32(c)).collect()
}

/// Run a prompted read over `keys`, the input ending after them. Returns
/// the read's result and how many times it rang the bell.
fn read(line: &mut ElLine, buf: &mut [u32], prompt: Option<&[u32]>, keys: &str) -> (i32, usize) {
    let mut keys = keys.chars().map(u32::from);
    let Some(mut session) = c_gets_begin(line, buf.len(), prompt) else {
        return (-1, 0);
    };
    let mut beeps = 0;
    loop {
        match c_gets_feed(&mut session, line, buf, keys.next()) {
            GetsStep::Continue { beep } => {
                if beep {
                    beeps += 1;
                }
            }
            GetsStep::Finished { result, .. } => return (result, beeps),
        }
    }
}

#[test]
fn hpos_is_the_column_within_the_line_not_the_buffer() {
    let mut el = editor("abc", 0);
    assert_eq!(c_hpos(&el), 0);
    el.cursor = 3;
    assert_eq!(c_hpos(&el), 3);

    let mut el = editor("abc\ndefgh", 9);
    assert_eq!(c_hpos(&el), 5, "counts from after the newline");
    el.cursor = 4;
    assert_eq!(c_hpos(&el), 0, "just past the newline is column zero");
    el.cursor = 3;
    assert_eq!(c_hpos(&el), 3, "the newline itself ends the previous line");
}

#[test]
fn the_single_character_deletes_stay_inside_the_buffer() {
    let mut el = editor("abc", 1);
    c_delafter1(&mut el);
    assert_eq!(text(&el), "ac");

    let mut el = editor("abc", 1);
    c_delbefore1(&mut el);
    assert_eq!(text(&el), "bc");
    assert_eq!(el.cursor, 1, "the cursor is the caller's to adjust");

    let mut el = editor("abc", 0);
    c_delbefore1(&mut el);
    assert!(el.lastchar <= 3, "the line did not grow");

    let mut el = editor("abc", 3);
    c_delafter1(&mut el);
    assert!(el.lastchar <= 3);
}

#[test]
fn a_short_read_draws_through_the_line_buffer_and_leaves_it_behind() {
    let mut el = editor("previous line", 3);
    let mut buf = [0u32; EL_BUFSIZ];
    let prompt: Vec<u32> = "? ".chars().map(u32::from).collect();
    let (n, _) = read(&mut el, &mut buf, Some(&prompt), "abc\r");
    assert_eq!(n, 3);

    assert_eq!(chars(&buf[..3]), "abc");
    assert_eq!(
        buf[3],
        u32::from('\r'),
        "the terminator is stored at buf[len] and not counted"
    );

    assert_eq!(el.buffer[0], 0, "only the first cell is cleared");
    assert_eq!(el.lastchar, 0);
    assert_eq!(el.cursor, 0);
    assert_eq!(
        chars(&el.buffer[1..6]),
        " abc ",
        "the prompt's tail, the typed text, and the blank the cursor sat on"
    );
    assert_eq!(
        el.buffer[6],
        u32::from('u'),
        "and the part of the destroyed line the prompt did not reach"
    );
}

#[test]
fn escape_carriage_return_and_newline_all_end_the_read() {
    for term in ['\r', '\n', '\u{1b}'] {
        let mut el = editor("", 0);
        let mut buf = [0u32; EL_BUFSIZ];
        let (n, _) = read(&mut el, &mut buf, None, &format!("hi{term}"));
        assert_eq!(n, 2, "{term:?}");
        assert_eq!(chars(&buf[..2]), "hi");
        assert_eq!(buf[2], u32::from(term), "stored without being counted");
        assert_eq!(el.buffer[1], u32::from('i'), "no prompt offset");
    }
}

#[test]
fn backspace_uncounts_a_character_and_aborts_the_read_on_an_empty_one() {
    let mut el = editor("", 0);
    let mut buf = [0u32; EL_BUFSIZ];
    let (n, _) = read(&mut el, &mut buf, None, "ab\u{8}c\r");
    assert_eq!(n, 2);
    assert_eq!(chars(&buf[..2]), "ac");

    let mut el = editor("", 0);
    let mut buf = [0u32; EL_BUFSIZ];
    let (n, _) = read(&mut el, &mut buf, None, "ab\u{7f}\u{7f}\u{7f}");
    assert_eq!(n, -1);
    assert_eq!(
        chars(&buf[..2]),
        "ab",
        "the uncounted characters are still in the caller's buffer"
    );
}

#[test]
fn exhausted_input_ends_the_read_the_same_way_a_cancel_does() {
    let mut el = editor("previous line", 3);
    let mut buf = [0u32; EL_BUFSIZ];
    let (n, _) = read(&mut el, &mut buf, None, "ab");
    assert_eq!(n, -1);
    assert_eq!(chars(&buf[..2]), "ab", "what was typed is still there");
    assert_eq!(el.buffer[0], 0);
    assert_eq!(el.lastchar, 0);
    assert_eq!(el.cursor, 0);
}

#[test]
fn the_length_cap_is_tested_before_the_store_not_after() {
    let cap = EL_BUFSIZ - 16;
    assert_eq!(cap, C_GETS_MAX);
    assert_eq!(c_gets_classify(u32::from('x'), cap - 1), Keystroke::Store);
    assert_eq!(c_gets_classify(u32::from('x'), cap), Keystroke::TooLong);
    assert_eq!(c_gets_classify(0o177, cap), Keystroke::Erase);
    assert_eq!(c_gets_classify(u32::from('\r'), cap), Keystroke::Terminate);
    assert_eq!(c_gets_classify(0x08, 0), Keystroke::Abort);
    assert_eq!(c_gets_classify(0x08, 1), Keystroke::Erase);
}

#[test]
fn the_length_cap_beeps_the_overflow_away_instead_of_truncating() {
    let mut el = editor("", 0);
    let mut buf = vec![0u32; EL_BUFSIZ];
    let cap = EL_BUFSIZ - 16;
    let prompt: Vec<u32> = "? ".chars().map(u32::from).collect();
    let (n, beeps) = read(
        &mut el,
        &mut buf,
        Some(&prompt),
        &format!("{}\r", "x".repeat(cap + 2)),
    );

    assert_eq!(n, cap as i32);
    assert!(buf[..cap].iter().all(|&c| c == u32::from('x')));
    assert_eq!(buf[cap], u32::from('\r'), "the terminator, not a 1009th x");
    assert_eq!(beeps, 2, "one beep per discarded character");
    assert!(2 + cap < el.limit);
}

#[test]
fn a_short_caller_buffer_refuses_the_read() {
    let mut el = editor("keep", 2);
    let mut buf = [0u32; 16];
    let (n, _) = read(&mut el, &mut buf, None, "x\r");
    assert_eq!(n, -1);
    assert_eq!(text(&el), "keep");
    assert_eq!(el.cursor, 2);
}
