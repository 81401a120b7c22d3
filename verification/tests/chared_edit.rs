use nshedit::chared::{
    c_delafter, c_delbefore, c_insert, c_next_word, c_prev_word, ce_is_word, ch_enlargebufs,
    cv_delfini, cv_end_word, cv_is_big_word, cv_is_word, cv_next_word, cv_prev_word, cv_undo,
    cv_yank, el_cursor, el_deletestr, el_deletestr1, el_winsertstr, el_wreplacestr, EditLine,
    ElMapCurrent, WordTest, DELETE, EL_BUFSIZ, INSERT, NOP, YANK,
};
use nshedit::chartype::Charset;

fn units(s: &str) -> Vec<u32> {
    s.chars().map(u32::from).collect()
}

/// An editor holding `s`, cursor at `at`.
fn editor(s: &str, at: usize) -> EditLine {
    EditLine::with_line(Charset::Utf8, &units(s), at).unwrap()
}

fn text(el: &EditLine) -> String {
    el.el_line.buffer[..el.el_line.lastchar]
        .iter()
        .filter_map(|&c| char::from_u32(c))
        .collect()
}

fn killed(el: &EditLine) -> String {
    el.el_chared.c_kill.buf[..el.el_chared.c_kill.last]
        .iter()
        .filter_map(|&c| char::from_u32(c))
        .collect()
}

/// Stage a pending vi operator: an anchor and what to do with the span.
fn pending(el: &mut EditLine, action: i32, anchor: usize) {
    el.el_chared.c_vcmd.action = action;
    el.el_chared.c_vcmd.pos = anchor;
}

#[test]
fn the_vi_word_test_separates_words_from_punctuation() {
    let el = EditLine::new(Charset::Utf8);
    assert_eq!(cv_is_word(&el, u32::from(b'a')), 1);
    assert_eq!(cv_is_word(&el, u32::from(b'7')), 1);
    assert_eq!(
        cv_is_word(&el, u32::from(b'.')),
        2,
        "punctuation is its own class"
    );
    assert_eq!(cv_is_word(&el, u32::from(b'-')), 2);
    assert_eq!(cv_is_word(&el, u32::from(b' ')), 0);
    assert_eq!(cv_is_word(&el, u32::from(b'\t')), 0);
    assert_ne!(
        cv_is_word(&el, u32::from(b'a')),
        cv_is_word(&el, u32::from(b'.')),
        "the equality the walkers rely on must distinguish these"
    );
}

#[test]
fn the_vi_big_word_test_puts_everything_non_space_in_one_class() {
    let el = EditLine::new(Charset::Utf8);
    for &c in b"a7.-/" {
        assert_eq!(cv_is_big_word(&el, u32::from(c)), 1, "{}", c as char);
    }
    for &c in b" \t\n" {
        assert_eq!(cv_is_big_word(&el, u32::from(c)), 0, "{}", c as char);
    }
}

#[test]
fn the_emacs_word_test_is_boolean() {
    let el = EditLine::new(Charset::Utf8);
    assert_eq!(ce_is_word(&el, u32::from(b'a')), 1);
    assert_eq!(
        ce_is_word(&el, u32::from(b'.')),
        0,
        "punctuation is not a word"
    );
    assert_eq!(ce_is_word(&el, u32::from(b' ')), 0);
}

#[test]
fn word_characters_join_words_and_the_terminator_always_does() {
    let mut el = EditLine::new(Charset::Ascii);
    el.el_map.wordchars = Some(vec![u32::from(b'-'), 0, u32::from(b'.')]);
    assert_eq!(ce_is_word(&el, u32::from(b'-')), 1);
    assert_eq!(cv_is_word(&el, u32::from(b'-')), 1);
    assert_eq!(cv_is_word(&el, u32::from(b'.')), 2, "after the terminator");
    assert_eq!(ce_is_word(&el, 0), 1, "the zero is always found");
    assert_eq!(cv_is_word(&el, 0xE9), 0, "not a letter in ASCII");
    let utf8 = EditLine::new(Charset::Utf8);
    assert_eq!(cv_is_word(&utf8, 0xE9), 1, "a letter in UTF-8");
}

#[test]
fn delete_after_clamps_to_the_end_of_the_line() {
    let mut el = editor("abcdef", 2);
    c_delafter(&mut el, 2);
    assert_eq!(text(&el), "abef");
    assert_eq!(el.el_line.cursor, 2, "the cursor does not move");

    c_delafter(&mut el, 99);
    assert_eq!(text(&el), "ab");
    assert_eq!(el.el_line.lastchar, 2);

    c_delafter(&mut el, 0);
    assert_eq!(text(&el), "ab");
}

#[test]
fn delete_before_leaves_the_cursor_to_the_caller() {
    let mut el = editor("abcdef", 4);
    c_delbefore(&mut el, 2);
    assert_eq!(text(&el), "abef");
    assert_eq!(el.el_line.cursor, 4);
    assert_eq!(killed(&el), "cd");
    assert_eq!(el.el_chared.c_undo.len, 6);

    let mut el = editor("abcdef", 2);
    c_delbefore(&mut el, 9);
    assert_eq!(text(&el), "cdef", "cut to what precedes the cursor");
    assert_eq!(killed(&el), "ab");
}

#[test]
fn the_vi_word_walkers_stop_at_class_boundaries() {
    let el = editor("foo.bar baz", 0);
    let end = el.el_line.lastchar;

    let a = cv_next_word(&el, 0, end, 1, WordTest::Vi);
    assert_eq!(a, 3, "stops at the dot, not past it");
    let b = cv_next_word(&el, a, end, 1, WordTest::Vi);
    assert_eq!(b, 4);
    let big = cv_next_word(&el, 0, end, 1, WordTest::ViBig);
    assert_eq!(big, 8, "big-word skips the punctuation entirely");

    let p = cv_prev_word(&el, end, 0, 1, WordTest::Vi);
    assert_eq!(p, 8, "back to the start of baz");
}

#[test]
fn the_end_of_word_walker_lands_on_the_last_character_of_the_run() {
    let el = editor("foo.bar baz", 0);
    let end = el.el_line.lastchar;

    assert_eq!(
        cv_end_word(&el, 0, end, 1, WordTest::Vi),
        2,
        "the last o of foo"
    );
    assert_eq!(
        cv_end_word(&el, 2, end, 1, WordTest::Vi),
        3,
        "the dot is a word of its own, so it both starts and ends one"
    );
    assert_eq!(
        cv_end_word(&el, 6, end, 1, WordTest::Vi),
        10,
        "the z of baz"
    );
    assert_eq!(
        cv_end_word(&el, 0, end, 1, WordTest::ViBig),
        6,
        "big-word runs through the dot to the r of bar"
    );

    assert_eq!(cv_end_word(&el, 5, end, 0, WordTest::Vi), 5);
}

#[test]
fn a_pending_change_keeps_the_blanks_after_the_last_word() {
    let mut el = editor("foo bar", 0);
    let end = el.el_line.lastchar;
    assert_eq!(cv_next_word(&el, 0, end, 1, WordTest::Vi), 4);
    pending(&mut el, DELETE | INSERT, 0);
    assert_eq!(cv_next_word(&el, 0, end, 1, WordTest::Vi), 3);
    assert_eq!(cv_next_word(&el, 0, end, 2, WordTest::Vi), 7);
}

#[test]
fn the_emacs_word_walkers_treat_punctuation_by_the_test_given() {
    let el = editor("foo.bar  baz", 0);
    let end = el.el_line.lastchar;
    assert_eq!(c_next_word(&el, 0, end, 1, WordTest::Emacs), 3);
    assert_eq!(c_next_word(&el, 0, end, 2, WordTest::Emacs), 7);
    assert_eq!(c_next_word(&el, 0, end, 1, WordTest::Vi), 7);
    assert_eq!(c_next_word(&el, 0, end, -1, WordTest::Emacs), 0);
    assert_eq!(c_prev_word(&el, end, 0, 1, WordTest::Emacs), 9);
    assert_eq!(c_prev_word(&el, end, 0, 2, WordTest::Emacs), 4);
    assert_eq!(c_prev_word(&el, end, 0, 9, WordTest::Emacs), 0);
    assert_eq!(c_prev_word(&el, 5, 5, 1, WordTest::Emacs), 5, "never below low");
}

#[test]
fn a_forward_operator_deletes_up_to_the_cursor_and_redraws() {
    let mut el = editor("abcdef", 4);
    pending(&mut el, DELETE, 1);

    let redraw = cv_delfini(&mut el);

    assert_eq!(text(&el), "aef");
    assert_eq!(el.el_line.cursor, 1, "back on the anchor");
    assert_eq!(killed(&el), "bcd", "a delete leaves the text yankable");
    assert_eq!(el.el_chared.c_undo.len, 6, "the pre-delete line was saved");
    assert_eq!(el.el_chared.c_vcmd.action, NOP);
    assert_eq!(el.el_chared.c_vcmd.pos, 1, "the anchor is left as it was");
    assert!(redraw, "the forward delete asks for the cursor redraw");
}

#[test]
fn a_backward_operator_deletes_from_the_cursor_and_leaves_the_redraw_alone() {
    let mut el = editor("abcdef", 1);
    pending(&mut el, DELETE, 4);

    let redraw = cv_delfini(&mut el);

    assert_eq!(text(&el), "aef");
    assert_eq!(el.el_line.cursor, 1);
    assert_eq!(killed(&el), "bcd");
    assert!(!redraw, "no cursor redraw on this branch");
}

#[test]
fn a_motion_that_did_not_move_still_deletes_one_character() {
    let mut el = editor("abc", 1);
    pending(&mut el, DELETE, 1);

    cv_delfini(&mut el);

    assert_eq!(text(&el), "ac");
    assert_eq!(killed(&el), "b");
    assert_eq!(el.el_line.cursor, 1);
}

#[test]
fn a_yank_copies_the_span_and_finishes_on_the_anchor_either_way() {
    let mut el = editor("abcdef", 4);
    pending(&mut el, YANK, 1);
    cv_delfini(&mut el);
    assert_eq!(text(&el), "abcdef", "nothing is removed");
    assert_eq!(killed(&el), "bcd");
    assert_eq!(el.el_line.cursor, 1);
    assert_eq!(el.el_chared.c_undo.len, -1, "no snapshot on the yank path");

    let mut el = editor("abcdef", 1);
    pending(&mut el, YANK, 4);
    cv_delfini(&mut el);
    assert_eq!(text(&el), "abcdef");
    assert_eq!(killed(&el), "bcd");
    assert_eq!(el.el_line.cursor, 4);
}

#[test]
fn the_insert_bit_switches_the_keymap_whatever_the_operator_does() {
    let mut el = editor("abcdef", 4);
    el.el_map.current = ElMapCurrent::Alt;
    pending(&mut el, DELETE | INSERT, 1);
    cv_delfini(&mut el);
    assert_eq!(
        el.el_map.current,
        ElMapCurrent::Key,
        "a change opens insert"
    );
    assert_eq!(text(&el), "aef");

    let mut el = editor("abcdef", 4);
    el.el_map.current = ElMapCurrent::Alt;
    pending(&mut el, YANK | INSERT, 1);
    cv_delfini(&mut el);
    assert_eq!(el.el_map.current, ElMapCurrent::Key);
    assert_eq!(
        text(&el),
        "abcdef",
        "the yank arm is tested before the delete"
    );
    assert_eq!(killed(&el), "bcd");

    let mut el = editor("abcdef", 4);
    el.el_map.current = ElMapCurrent::Alt;
    pending(&mut el, YANK, 1);
    cv_delfini(&mut el);
    assert_eq!(el.el_map.current, ElMapCurrent::Alt);

    let mut el = editor("abcdef", 4);
    el.el_map.current = ElMapCurrent::Alt;
    pending(&mut el, INSERT, 1);
    cv_delfini(&mut el);
    assert_eq!(el.el_map.current, ElMapCurrent::Key);
    assert_eq!(text(&el), "aef");
}

#[test]
fn the_undo_snapshot_records_the_command_and_its_argument() {
    let mut el = editor("abc", 2);
    el.el_state.doingarg = 1;
    el.el_state.argument = 7;
    el.el_state.thiscmd = 12;
    el.el_state.thischar = u32::from(b'x');
    el.el_chared.c_vcmd.action = DELETE;
    el.el_chared.c_redo.pos = 5;
    cv_undo(&mut el);
    assert_eq!(el.el_chared.c_undo.len, 3);
    assert_eq!(el.el_chared.c_undo.cursor, 2);
    assert_eq!(&el.el_chared.c_undo.buf[..3], &units("abc")[..]);
    assert_eq!(el.el_chared.c_redo.count, 7);
    assert_eq!(el.el_chared.c_redo.action, DELETE);
    assert_eq!(el.el_chared.c_redo.pos, 0);
    assert_eq!(el.el_chared.c_redo.cmd, 12);
    assert_eq!(el.el_chared.c_redo.ch, u32::from(b'x'));

    el.el_state.doingarg = 0;
    cv_undo(&mut el);
    assert_eq!(el.el_chared.c_redo.count, 0, "no argument typed");
}

#[test]
fn a_yank_replaces_the_kill_buffer_and_a_negative_one_empties_it() {
    let mut el = editor("abcdef", 0);
    cv_yank(&mut el, 1, 3);
    assert_eq!(killed(&el), "bcd");
    cv_yank(&mut el, 4, 2);
    assert_eq!(killed(&el), "ef");
    cv_yank(&mut el, 0, -4);
    assert_eq!(killed(&el), "");
}

#[test]
fn insertion_opens_a_gap_at_the_cursor() {
    let mut el = editor("abcd", 1);
    c_insert(&mut el, 2);
    assert_eq!(el.el_line.lastchar, 6);
    assert_eq!(el.el_line.cursor, 1);
    assert_eq!(&el.el_line.buffer[3..6], &units("bcd")[..]);
    c_insert(&mut el, -1);
    assert_eq!(el.el_line.lastchar, 6, "a negative count does nothing");
}

#[test]
fn enlarging_doubles_every_buffer_and_keeps_the_redo_limit() {
    let mut el = EditLine::new(Charset::Utf8);
    assert_eq!(ch_enlargebufs(&mut el, 1), 1);
    assert_eq!(el.el_line.buffer.len(), 2 * EL_BUFSIZ);
    assert_eq!(el.el_line.limit, 2 * EL_BUFSIZ - 2);
    assert_eq!(el.el_chared.c_kill.buf.len(), 2 * EL_BUFSIZ);
    assert_eq!(el.el_chared.c_undo.buf.len(), 2 * EL_BUFSIZ);
    assert_eq!(el.el_chared.c_redo.buf.len(), 2 * EL_BUFSIZ);
    assert_eq!(el.el_chared.c_redo.lim, EL_BUFSIZ);

    let mut el = EditLine::new(Charset::Utf8);
    assert_eq!(ch_enlargebufs(&mut el, 3 * EL_BUFSIZ), 1);
    assert_eq!(el.el_line.buffer.len(), 4 * EL_BUFSIZ, "doubled until the new space covers it");

    let mut el = EditLine::new(Charset::Utf8);
    assert_eq!(ch_enlargebufs(&mut el, usize::MAX / 2), 0);
    assert_eq!(el.el_line.buffer.len(), EL_BUFSIZ, "a refused growth changes nothing");
}

#[test]
fn inserting_a_string_moves_the_cursor_past_it() {
    let mut el = editor("held", 2);
    assert_eq!(el_winsertstr(&mut el, &units("XY")), 0);
    assert_eq!(text(&el), "heXYld");
    assert_eq!(el.el_line.cursor, 4);
    assert_eq!(el_winsertstr(&mut el, &[]), -1, "an empty insert is an error");
    assert_eq!(text(&el), "heXYld");
}

#[test]
fn a_long_insert_grows_the_line() {
    let mut el = editor("ab", 1);
    let long = vec![u32::from(b'z'); 2000];
    assert_eq!(el_winsertstr(&mut el, &long), 0);
    assert_eq!(el.el_line.lastchar, 2002);
    assert_eq!(el.el_line.cursor, 2001);
    assert!(el.el_line.limit >= 2002);
    assert_eq!(el.el_line.buffer[0], u32::from(b'a'));
    assert_eq!(el.el_line.buffer[2001], u32::from(b'b'));
}

#[test]
fn deleting_before_the_cursor_is_all_or_nothing() {
    let mut el = editor("abcdef", 3);
    el_deletestr(&mut el, 2);
    assert_eq!(text(&el), "adef");
    assert_eq!(el.el_line.cursor, 1);
    assert_eq!(killed(&el), "bc");
    el_deletestr(&mut el, 2);
    assert_eq!(text(&el), "adef", "fewer than two precede the cursor");
    el_deletestr(&mut el, 0);
    assert_eq!(text(&el), "adef");
}

#[test]
fn deleting_a_range_moves_only_what_follows_it_once() {
    let mut el = editor("abcdefgh", 0);
    assert_eq!(el_deletestr1(&mut el, 1, 3), 2);
    assert_eq!(text(&el), "adedef");

    let mut el = editor("abcdefgh", 0);
    assert_eq!(el_deletestr1(&mut el, 1, 6), 5);
    assert_eq!(text(&el), "aghdef");

    let mut el = editor("abcdefgh", 0);
    assert_eq!(el_deletestr1(&mut el, 2, 8), 0, "the last character cannot go");
    assert_eq!(el_deletestr1(&mut el, 3, 3), 0);
    assert_eq!(el_deletestr1(&mut el, -1, 2), 0);
    assert_eq!(text(&el), "abcdefgh");
}

#[test]
fn replacing_the_line_keeps_the_cursor_unless_it_is_past_the_end() {
    let mut el = editor("abcdef", 5);
    assert_eq!(el_wreplacestr(&mut el, &units("xyz")), 0);
    assert_eq!(text(&el), "xyz");
    assert_eq!(el.el_line.cursor, 3);
    assert_eq!(el.el_line.buffer[3], 0);

    let mut el = editor("abcdef", 1);
    assert_eq!(el_wreplacestr(&mut el, &units("xyz")), 0);
    assert_eq!(el.el_line.cursor, 1);
    assert_eq!(el_wreplacestr(&mut el, &[]), -1);
    assert_eq!(text(&el), "xyz");
}

#[test]
fn the_cursor_moves_are_clamped_to_the_line() {
    let mut el = editor("abcdef", 2);
    assert_eq!(el_cursor(&mut el, 0), 2);
    assert_eq!(el_cursor(&mut el, 3), 5);
    assert_eq!(el_cursor(&mut el, 9), 6);
    assert_eq!(el_cursor(&mut el, -100), 0);
    assert_eq!(el_cursor(&mut el, i32::MAX), 6);
}

#[test]
fn deleting_what_was_inserted_gives_the_line_back() {
    for at in 0..=5 {
        let mut el = editor("hello", at);
        assert_eq!(el_winsertstr(&mut el, &units("XYZ")), 0);
        el_deletestr(&mut el, 3);
        assert_eq!(text(&el), "hello");
        assert_eq!(el.el_line.cursor, at);
    }
}
