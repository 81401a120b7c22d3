use nshedit::chared::{EditLine, ElMapCurrent, DELETE, MAP_VI, MODE_REPLACE, MODE_REPLACE_1, NOP};
use nshedit::chartype::Charset;
use nshedit::common::{
    ed_argument_digit, ed_delete_next_char, ed_delete_prev_char, ed_delete_prev_word,
    ed_end_of_file, ed_ignore, ed_redisplay, ed_sequence_lead_in, ed_kill_line, ed_newline, ed_transpose_chars, ed_unassigned,
    ed_insert, ed_move_to_beg, ed_move_to_end, ed_next_char, ed_next_line, ed_prev_char, ed_prev_line, ed_prev_word,
    kill_save,
    Redraw, CC_REDISPLAY, CC_ARGHACK, CC_CURSOR, CC_EOF, CC_ERROR, CC_NEWLINE, CC_NORM, CC_REFRESH,
};

fn editor(s: &str, at: usize) -> EditLine {
    let units: Vec<u32> = s.chars().map(u32::from).collect();
    EditLine::with_line(Charset::Utf8, &units, at).unwrap()
}

fn text(el: &EditLine) -> String {
    el.el_line.buffer[..el.el_line.lastchar]
        .iter()
        .filter_map(|&c| char::from_u32(c))
        .collect()
}

fn killed(el: &EditLine) -> String {
    el.el_chared.c_kill.buf[..el.el_chared.c_kill.last]
        .iter()
        .filter_map(|&c| char::from_u32(c))
        .collect()
}

#[test]
fn killing_the_line_keeps_the_tail_in_the_kill_buffer() {
    let mut el = editor("hello world", 5);
    assert_eq!(ed_kill_line(&mut el, 0), CC_REFRESH);
    assert_eq!(text(&el), "hello");
    assert_eq!(killed(&el), " world");
    assert_eq!(el.el_line.cursor, 5);
}

#[test]
fn saving_an_empty_range_empties_the_kill_buffer() {
    let mut el = editor("abc", 0);
    kill_save(&mut el, 0, 2);
    assert_eq!(killed(&el), "ab");
    kill_save(&mut el, 2, 1);
    assert_eq!(killed(&el), "");
}

#[test]
fn deleting_the_previous_word_uses_the_emacs_word_test() {
    let mut el = editor("foo.bar baz", 11);
    assert_eq!(ed_delete_prev_word(&mut el, 0), CC_REFRESH);
    assert_eq!(text(&el), "foo.bar ");
    assert_eq!(el.el_line.cursor, 8);
    assert_eq!(killed(&el), "baz");

    let mut el = editor("foo.bar baz", 11);
    el.el_state.argument = 2;
    ed_delete_prev_word(&mut el, 0);
    assert_eq!(text(&el), "foo.");
    assert_eq!(killed(&el), "bar baz");

    let mut el = editor("foo", 0);
    assert_eq!(ed_delete_prev_word(&mut el, 0), CC_ERROR);
    assert_eq!(text(&el), "foo");
}

#[test]
fn deleting_at_the_end_fails_in_emacs_and_backs_up_in_vi() {
    let mut el = editor("abc", 3);
    assert_eq!(ed_delete_next_char(&mut el, 0), CC_ERROR);
    assert_eq!(text(&el), "abc");

    let mut el = editor("abc", 1);
    assert_eq!(ed_delete_next_char(&mut el, 0), CC_REFRESH);
    assert_eq!(text(&el), "ac");
    assert_eq!(el.el_line.cursor, 1);

    let mut el = editor("abc", 3);
    el.el_map.map_type = MAP_VI;
    assert_eq!(ed_delete_next_char(&mut el, 0), CC_REFRESH);
    assert_eq!(text(&el), "ab");
    assert_eq!(el.el_line.cursor, 1, "back on the last character");
}

#[test]
fn transposing_swaps_the_characters_around_the_cursor() {
    let mut el = editor("abc", 1);
    assert_eq!(ed_transpose_chars(&mut el, 0), CC_REFRESH);
    assert_eq!(text(&el), "bac");
    assert_eq!(el.el_line.cursor, 2);

    let mut el = editor("abc", 3);
    assert_eq!(ed_transpose_chars(&mut el, 0), CC_REFRESH);
    assert_eq!(text(&el), "acb");

    let mut el = editor("a", 0);
    assert_eq!(ed_transpose_chars(&mut el, 0), CC_ERROR);

    let mut el = editor("ab", 0);
    assert_eq!(ed_transpose_chars(&mut el, 0), CC_ERROR);
    assert_eq!(el.el_line.cursor, 1, "the step right is kept");
    assert_eq!(text(&el), "ab");
}

#[test]
fn argument_digits_start_and_extend_the_count() {
    let mut el = editor("", 0);
    assert_eq!(ed_argument_digit(&mut el, u32::from(b'x')), CC_ERROR);
    assert_eq!(ed_argument_digit(&mut el, u32::from(b'5')), CC_ARGHACK);
    assert_eq!(el.el_state.argument, 5);
    assert_eq!(el.el_state.doingarg, 1);
    assert_eq!(ed_argument_digit(&mut el, u32::from(b'3')), CC_ARGHACK);
    assert_eq!(el.el_state.argument, 53);
    el.el_state.argument = 2_000_000;
    assert_eq!(ed_argument_digit(&mut el, u32::from(b'1')), CC_ERROR);
    assert_eq!(el.el_state.argument, 2_000_000);
}

#[test]
fn deleting_backwards_moves_the_cursor_with_the_text() {
    let mut el = editor("abc", 2);
    assert_eq!(ed_delete_prev_char(&mut el, 0), CC_REFRESH);
    assert_eq!(text(&el), "ac");
    assert_eq!(el.el_line.cursor, 1);

    let mut el = editor("abc", 2);
    el.el_state.argument = 5;
    ed_delete_prev_char(&mut el, 0);
    assert_eq!(text(&el), "c");
    assert_eq!(el.el_line.cursor, 0);

    let mut el = editor("abc", 0);
    assert_eq!(ed_delete_prev_char(&mut el, 0), CC_ERROR);
}

#[test]
fn a_newline_becomes_part_of_the_line() {
    let mut el = editor("ab", 1);
    assert_eq!(ed_newline(&mut el, 0), CC_NEWLINE);
    assert_eq!(text(&el), "ab\n");
    assert_eq!(el.el_line.buffer[3], 0);
    assert_eq!(el.el_line.cursor, 1);
}

#[test]
fn end_of_input_terminates_the_text_in_place() {
    let mut el = editor("ab", 1);
    assert_eq!(ed_end_of_file(&mut el, 0), CC_EOF);
    assert_eq!(text(&el), "ab");
    assert_eq!(el.el_line.buffer[2], 0);
    assert_eq!(ed_unassigned(&mut el, 0), CC_ERROR);
    assert_eq!(ed_ignore(&mut el, 0), CC_NORM);
}

#[test]
fn character_motions_stop_at_the_ends_of_the_line() {
    let mut el = editor("abcd", 1);
    assert_eq!(ed_next_char(&mut el, 0), CC_CURSOR);
    assert_eq!(el.el_line.cursor, 2);
    el.el_state.argument = 10;
    assert_eq!(ed_next_char(&mut el, 0), CC_CURSOR);
    assert_eq!(el.el_line.cursor, 4, "clamped to the end");
    assert_eq!(ed_next_char(&mut el, 0), CC_ERROR);
    assert_eq!(ed_prev_char(&mut el, 0), CC_CURSOR);
    assert_eq!(el.el_line.cursor, 0);
    assert_eq!(ed_prev_char(&mut el, 0), CC_ERROR);

    let mut vi = editor("abcd", 3);
    vi.el_map.map_type = MAP_VI;
    assert_eq!(ed_next_char(&mut vi, 0), CC_ERROR, "vi stays on the last character");
}

#[test]
fn a_motion_finishes_a_pending_vi_operator() {
    let mut el = editor("abcdef", 1);
    el.el_map.map_type = MAP_VI;
    el.el_chared.c_vcmd.action = DELETE;
    el.el_chared.c_vcmd.pos = 1;
    assert_eq!(ed_move_to_end(&mut el, 0), CC_REFRESH);
    assert_eq!(text(&el), "a");
    assert_eq!(el.el_chared.c_vcmd.action, NOP);

    let mut el = editor("abcdef", 4);
    el.el_map.map_type = MAP_VI;
    el.el_chared.c_vcmd.action = DELETE;
    el.el_chared.c_vcmd.pos = 4;
    assert_eq!(ed_prev_char(&mut el, 0), CC_REFRESH);
    assert_eq!(text(&el), "abcef");
    assert_eq!(el.el_line.cursor, 3);
}

#[test]
fn moving_to_the_ends_differs_between_emacs_and_vi() {
    let mut el = editor("  ab", 2);
    assert_eq!(ed_move_to_end(&mut el, 0), CC_CURSOR);
    assert_eq!(el.el_line.cursor, 4);
    assert_eq!(ed_move_to_beg(&mut el, 0), CC_CURSOR);
    assert_eq!(el.el_line.cursor, 0);

    let mut vi = editor("  ab", 2);
    vi.el_map.map_type = MAP_VI;
    assert_eq!(ed_move_to_end(&mut vi, 0), CC_CURSOR);
    assert_eq!(vi.el_line.cursor, 3, "on the last character");
    assert_eq!(ed_move_to_beg(&mut vi, 0), CC_CURSOR);
    assert_eq!(vi.el_line.cursor, 2, "past the leading blanks");
}

#[test]
fn the_word_motion_back_uses_the_emacs_test() {
    let mut el = editor("foo.bar baz", 11);
    assert_eq!(ed_prev_word(&mut el, 0), CC_CURSOR);
    assert_eq!(el.el_line.cursor, 8);
    assert_eq!(ed_prev_word(&mut el, 0), CC_CURSOR);
    assert_eq!(el.el_line.cursor, 4);
    let mut el = editor("foo", 0);
    assert_eq!(ed_prev_word(&mut el, 0), CC_ERROR);
}

#[test]
fn typing_inserts_replaces_or_repeats_the_character() {
    let mut el = editor("ac", 1);
    assert_eq!(ed_insert(&mut el, u32::from(b'b')), (CC_NORM, Redraw::AddChar));
    assert_eq!(text(&el), "abc");
    assert_eq!(el.el_line.cursor, 2);

    let mut el = editor("abc", 1);
    el.el_state.inputmode = MODE_REPLACE;
    ed_insert(&mut el, u32::from(b'X'));
    assert_eq!(text(&el), "aXc", "replace overwrites");

    let mut el = editor("abc", 1);
    el.el_state.argument = 3;
    assert_eq!(ed_insert(&mut el, u32::from(b'z')), (CC_NORM, Redraw::Line));
    assert_eq!(text(&el), "azzzbc");
    assert_eq!(el.el_line.cursor, 4);

    let mut el = editor("abc", 1);
    el.el_state.inputmode = MODE_REPLACE_1;
    assert_eq!(ed_insert(&mut el, u32::from(b'R')), (CC_CURSOR, Redraw::AddChar));
    assert_eq!(text(&el), "aRc");
    assert_eq!(el.el_line.cursor, 1, "back on the replaced character");
    assert_eq!(el.el_map.current, ElMapCurrent::Alt);

    let mut el = editor("abc", 1);
    assert_eq!(ed_insert(&mut el, 0), (CC_ERROR, Redraw::Nothing));
}

#[test]
fn a_long_counted_insert_grows_the_line() {
    let mut el = editor("ab", 1);
    el.el_state.argument = 3000;
    assert_eq!(ed_insert(&mut el, u32::from(b'-')), (CC_NORM, Redraw::Line));
    assert_eq!(el.el_line.lastchar, 3002);
    assert_eq!(el.el_line.cursor, 3001);
    assert_eq!(el.el_line.buffer[3001], u32::from(b'b'));
}

#[test]
fn moving_down_a_line_keeps_the_column() {
    let mut el = editor("ab\ncdef\ngh", 1);
    assert_eq!(ed_next_line(&mut el, 0), CC_CURSOR);
    assert_eq!(el.el_line.cursor, 4);
    assert_eq!(el.el_state.argument, 0);
    el.el_state.argument = 1;
    assert_eq!(ed_next_line(&mut el, 0), CC_CURSOR);
    assert_eq!(el.el_line.cursor, 9);
    el.el_state.argument = 1;
    assert_eq!(ed_next_line(&mut el, 0), CC_ERROR);
    assert_eq!(el.el_line.cursor, 9);
    assert_eq!(el.el_state.argument, 1);
}

#[test]
fn moving_down_onto_a_shorter_line_stops_at_its_end() {
    let mut el = editor("abcd\nx\nyz", 3);
    assert_eq!(ed_next_line(&mut el, 0), CC_CURSOR);
    assert_eq!(el.el_line.cursor, 6);

    let mut el = editor("a\nb\nc", 0);
    el.el_state.argument = 2;
    assert_eq!(ed_next_line(&mut el, 0), CC_CURSOR);
    assert_eq!(el.el_line.cursor, 4);

    let mut el = editor("a\nb\nc", 0);
    el.el_state.argument = 3;
    assert_eq!(ed_next_line(&mut el, 0), CC_ERROR);
    assert_eq!(el.el_line.cursor, 0);
    assert_eq!(el.el_state.argument, 1);

    let mut el = editor("a\nb", 0);
    el.el_state.argument = 0;
    assert_eq!(ed_next_line(&mut el, 0), CC_CURSOR);
    assert_eq!(el.el_line.cursor, 0);
    assert_eq!(el.el_state.argument, 0);
}

#[test]
fn moving_up_a_line_keeps_the_column() {
    let mut el = editor("ab\ncdef\ngh", 9);
    assert_eq!(ed_prev_line(&mut el, 0), CC_CURSOR);
    assert_eq!(el.el_line.cursor, 4);
    el.el_state.argument = 1;
    assert_eq!(ed_prev_line(&mut el, 0), CC_CURSOR);
    assert_eq!(el.el_line.cursor, 1);
    el.el_state.argument = 1;
    assert_eq!(ed_prev_line(&mut el, 0), CC_ERROR);
    assert_eq!(el.el_line.cursor, 1);

    let mut el = editor("ab\ncdef\ngh", 10);
    el.el_state.argument = 2;
    assert_eq!(ed_prev_line(&mut el, 0), CC_CURSOR);
    assert_eq!(el.el_line.cursor, 2);
}

#[test]
fn a_newline_under_the_cursor_is_not_counted_going_up() {
    let mut el = editor("ab\ncd", 2);
    assert_eq!(ed_prev_line(&mut el, 0), CC_ERROR);
    assert_eq!(el.el_line.cursor, 2);
    assert_eq!(el.el_state.argument, 1);

    let mut el = editor("ab\ncd\nef", 5);
    assert_eq!(ed_prev_line(&mut el, 0), CC_CURSOR);
    assert_eq!(el.el_line.cursor, 2);
}

#[test]
fn lead_ins_are_swallowed_and_redisplay_is_asked_for() {
    let mut el = editor("ab", 1);
    assert_eq!(ed_sequence_lead_in(&mut el, 0x1b), CC_NORM);
    assert_eq!(text(&el), "ab");
    assert_eq!(el.el_line.cursor, 1);
    assert_eq!(ed_redisplay(&mut el, 0x0c), CC_REDISPLAY);
    assert_eq!(text(&el), "ab");
}
