//! Editor commands shared by both key maps that work on the line, the kill
//! buffer and the numeric argument. Each gives back what the caller does
//! next: redraw, move the cursor, treat the key as part of an argument,
//! end the line, or ring the bell.

use vstd::prelude::*;

use crate::chared::{
    c_delafter, c_delbefore, c_hpos, c_insert, column_of, c_prev_word, ch_enlargebufs, copy_prefix, cv_delfini, delafter_spec,
    delbefore_spec, delfini_spec, enlarge_size, enlarged_spec, insert_spec, lemma_grow_until, prev_word_start,
    law_delete_after_is_yankable, line_at, line_at_spec, scan_forward, view_wf, scan_up, with_cursor, yank_spec, CVcmdT, EditLine, EditView, ElMapCurrent, ElStateT, LineView, Run,
    WordTest, EL_LEAVE, EL_LINE_MAX, MAP_VI, MODE_INSERT, MODE_REPLACE_1, NOP,
};

verus! {

/// Carry on reading keys.
pub const CC_NORM: u8 = 0;

/// The line is finished.
pub const CC_NEWLINE: u8 = 1;

/// The input ended.
pub const CC_EOF: u8 = 2;

/// The key was part of a numeric argument.
pub const CC_ARGHACK: u8 = 3;

/// Redraw the line.
pub const CC_REFRESH: u8 = 4;

/// Move the cursor on the screen.
pub const CC_CURSOR: u8 = 5;

/// The command failed: ring the bell.
pub const CC_ERROR: u8 = 6;

/// A failure the editor cannot recover from.
pub const CC_FATAL: u8 = 7;

/// Redraw everything, prompt included.
pub const CC_REDISPLAY: u8 = 8;

/// Redraw the line and ring the bell.
pub const CC_REFRESH_BEEP: u8 = 9;

/// The largest numeric argument another digit is still appended to.
pub const ARGUMENT_CAP: i32 = 1_000_000;

/// An ASCII decimal digit, the digits of every locale.
pub open spec fn is_digit(c: u32) -> bool {
    0x30 <= c <= 0x39
}

fn iswdigit(c: u32) -> (digit: bool)
    ensures
        digit == is_digit(c),
{
    0x30 <= c && c <= 0x39
}

/// Copy the line from `from` up to `to` into the start of the kill buffer,
/// which then holds just that text; an empty or inverted range empties it.
pub fn kill_save(el: &mut EditLine, from: usize, to: usize)
    requires
        old(el).wf(),
    ensures
        final(el).wf(),
        final(el)@ == yank_spec(old(el)@, from as int, to - from),
{
    let count: usize = if to > from {
        to - from
    } else {
        0
    };
    let len = el.el_line.buffer.len();
    let start = if from < len {
        from
    } else {
        len
    };
    let room = len - start;
    let fits = if count < room {
        count
    } else {
        room
    };
    let n = if fits < el.el_chared.c_kill.buf.len() {
        fits
    } else {
        el.el_chared.c_kill.buf.len()
    };
    copy_prefix(&mut el.el_chared.c_kill.buf, &el.el_line.buffer, start, n);
    el.el_chared.c_kill.last = n;
    proof {
        assert(el@ =~= yank_spec(old(el)@, from as int, to - from));
    }
}

/// `ed_kill_line`: the text from the cursor to the end goes to the kill
/// buffer and the line ends at the cursor.
pub open spec fn kill_line_spec(v: EditView) -> EditView {
    let w = yank_spec(v, v.line.cursor as int, v.line.lastchar - v.line.cursor);
    EditView { line: LineView { lastchar: v.line.cursor, ..w.line }, ..w }
}

/// Kill from the cursor to the end of the line.
pub fn ed_kill_line(el: &mut EditLine, c: u32) -> (result: u8)
    requires
        old(el).wf(),
    ensures
        final(el).wf(),
        final(el)@ == kill_line_spec(old(el)@),
        result == CC_REFRESH,
{
    let cursor = el.el_line.cursor;
    let lastchar = el.el_line.lastchar;
    kill_save(el, cursor, lastchar);
    el.el_line.lastchar = cursor;
    proof {
        assert(el@ =~= kill_line_spec(old(el)@));
    }
    CC_REFRESH
}

/// `ed_delete_prev_word`: from the start of the line it fails; otherwise
/// the emacs word move back by the argument marks where the deletion
/// starts, the text from there to the cursor goes to the kill buffer and is
/// deleted, and the cursor moves to where it started.
pub open spec fn delete_prev_word_spec(v: EditView) -> (EditView, u8) {
    if v.line.cursor == 0 {
        (v, CC_ERROR)
    } else {
        let c = v.line.cursor as int;
        let cp = prev_word_start(v, WordTest::Emacs, c, 0, v.state.argument as int);
        (with_cursor(delbefore_spec(yank_spec(v, cp, c - cp), c - cp), cp), CC_REFRESH)
    }
}

/// Delete the word before the cursor, keeping it in the kill buffer.
pub fn ed_delete_prev_word(el: &mut EditLine, c: u32) -> (result: u8)
    requires
        old(el).wf(),
    ensures
        final(el).wf(),
        (final(el)@, result) == delete_prev_word_spec(old(el)@),
{
    let cursor = el.el_line.cursor;
    if cursor == 0 {
        return CC_ERROR;
    }
    let cp = c_prev_word(el, cursor, 0, el.el_state.argument, WordTest::Emacs);
    kill_save(el, cp, cursor);
    c_delbefore(el, (cursor - cp) as i32);
    el.el_line.cursor = cp;
    proof {
        let (expected, _) = delete_prev_word_spec(old(el)@);
        assert(el@ =~= expected);
    }
    CC_REFRESH
}

/// `ed_delete_next_char`: at the end of the line it fails, except in vi
/// with text before the cursor, where the cursor steps back onto the last
/// character first; then the argument's count of characters from the
/// cursor is deleted as `c_delafter` deletes it, and in vi a cursor left at
/// or past the end steps back onto the last character.
pub open spec fn delete_next_char_spec(v: EditView) -> (EditView, u8) {
    let at_end = v.line.cursor == v.line.lastchar;
    if at_end && (v.map_type != MAP_VI || v.line.cursor == 0) {
        (v, CC_ERROR)
    } else {
        let v1 = if at_end {
            with_cursor(v, v.line.cursor - 1)
        } else {
            v
        };
        let w = delafter_spec(v1, v1.state.argument as int);
        let w2 = if w.map_type == MAP_VI && w.line.cursor >= w.line.lastchar && w.line.cursor > 0 {
            with_cursor(
                w,
                if w.line.lastchar > 0 {
                    w.line.lastchar - 1
                } else {
                    0
                },
            )
        } else {
            w
        };
        (w2, CC_REFRESH)
    }
}

/// Delete the character under the cursor, the argument's count of times.
pub fn ed_delete_next_char(el: &mut EditLine, c: u32) -> (result: u8)
    requires
        old(el).wf(),
    ensures
        final(el).wf(),
        (final(el)@, result) == delete_next_char_spec(old(el)@),
{
    if el.el_line.cursor == el.el_line.lastchar {
        if el.el_map.map_type != MAP_VI {
            return CC_ERROR;
        }
        if el.el_line.cursor == 0 {
            return CC_ERROR;
        }
        el.el_line.cursor = el.el_line.cursor - 1;
    }
    let count = el.el_state.argument;
    c_delafter(el, count);
    if el.el_map.map_type == MAP_VI && el.el_line.cursor >= el.el_line.lastchar && el.el_line.cursor > 0 {
        el.el_line.cursor = if el.el_line.lastchar > 0 {
            el.el_line.lastchar - 1
        } else {
            0
        };
    }
    proof {
        let (expected, _) = delete_next_char_spec(old(el)@);
        assert(el@ =~= expected);
    }
    CC_REFRESH
}

/// With the cursor before the end of the line and an argument of at least
/// one, deleting the next character removes the argument's count of
/// characters from the cursor on, or every character from the cursor to
/// the end when fewer remain: the line becomes the text before the cursor
/// followed by the text after the removed span, it ends that many
/// characters earlier, and the kill buffer holds the removed span. The
/// cursor stays where it was, except in vi where, left at the end of a
/// line that still has text, it steps back onto the last character.
pub proof fn law_delete_next_char_removes_argument_count(v: EditView)
    requires
        view_wf(v),
        v.line.cursor < v.line.lastchar,
        1 <= v.state.argument,
    ensures
        ({
            let c = v.line.cursor as int;
            let l = v.line.lastchar as int;
            let n = if v.state.argument > l - c {
                l - c
            } else {
                v.state.argument as int
            };
            let (w, result) = delete_next_char_spec(v);
            &&& result == CC_REFRESH
            &&& w.line.lastchar == l - n
            &&& w.line.buffer.subrange(0, l - n) == v.line.buffer.subrange(0, c) + v.line.buffer.subrange(c + n, l)
            &&& w.kill.buf.subrange(0, w.kill.last as int) == v.line.buffer.subrange(c, c + n)
            &&& w.line.cursor == if v.map_type == MAP_VI && c == l - n && c > 0 {
                c - 1
            } else {
                c
            }
        }),
{
    law_delete_after_is_yankable(v, v.state.argument as int);
}

/// `ed_transpose_chars`: with the cursor inside the text it first steps
/// right, failing on a line of one character; then the two characters
/// before the cursor change places, and with fewer than two before it the
/// command fails, the step right kept.
pub open spec fn transpose_spec(v: EditView) -> (EditView, u8) {
    if v.line.cursor < v.line.lastchar && v.line.lastchar <= 1 {
        (v, CC_ERROR)
    } else {
        let v1 = if v.line.cursor < v.line.lastchar {
            with_cursor(v, v.line.cursor + 1)
        } else {
            v
        };
        let at = v1.line.cursor as int;
        if at > 1 {
            let buf = v1.line.buffer;
            let swapped = buf.update(at - 2, buf[at - 1]).update(at - 1, buf[at - 2]);
            (EditView { line: LineView { buffer: swapped, ..v1.line }, ..v1 }, CC_REFRESH)
        } else {
            (v1, CC_ERROR)
        }
    }
}

/// Swap the character before the cursor with the one under it.
pub fn ed_transpose_chars(el: &mut EditLine, c: u32) -> (result: u8)
    requires
        old(el).wf(),
    ensures
        final(el).wf(),
        (final(el)@, result) == transpose_spec(old(el)@),
{
    if el.el_line.cursor < el.el_line.lastchar {
        if el.el_line.lastchar <= 1 {
            return CC_ERROR;
        }
        el.el_line.cursor = el.el_line.cursor + 1;
    }
    let at = el.el_line.cursor;
    if at > 1 {
        let before = el.el_line.buffer[at - 2];
        let under = el.el_line.buffer[at - 1];
        el.el_line.buffer.set(at - 2, under);
        el.el_line.buffer.set(at - 1, before);
        proof {
            let (expected, _) = transpose_spec(old(el)@);
            assert(el@ =~= expected);
        }
        CC_REFRESH
    } else {
        proof {
            let (expected, _) = transpose_spec(old(el)@);
            assert(el@ =~= expected);
        }
        CC_ERROR
    }
}

/// `ed_argument_digit`: a key that is not a digit fails; while an argument
/// is being typed the digit is appended to it, unless it already exceeds
/// the cap, which fails; otherwise the digit starts the argument.
pub open spec fn argument_digit_spec(v: EditView, c: u32) -> (EditView, u8) {
    if !is_digit(c) {
        (v, CC_ERROR)
    } else {
        let digit = c - 0x30;
        if v.state.doingarg != 0 {
            if v.state.argument > ARGUMENT_CAP {
                (v, CC_ERROR)
            } else {
                (
                    EditView { state: ElStateT { argument: (v.state.argument * 10 + digit) as i32, ..v.state }, ..v },
                    CC_ARGHACK,
                )
            }
        } else {
            (
                EditView { state: ElStateT { argument: digit as i32, doingarg: 1, ..v.state }, ..v },
                CC_ARGHACK,
            )
        }
    }
}

/// Type a digit of the numeric argument.
pub fn ed_argument_digit(el: &mut EditLine, c: u32) -> (result: u8)
    requires
        old(el).wf(),
        old(el).el_state.doingarg != 0 && is_digit(c) ==> old(el).el_state.argument * 10 >= i32::MIN,
    ensures
        final(el).wf(),
        (final(el)@, result) == argument_digit_spec(old(el)@, c),
{
    if !iswdigit(c) {
        return CC_ERROR;
    }
    let digit = (c - 0x30) as i32;
    if el.el_state.doingarg != 0 {
        if el.el_state.argument > ARGUMENT_CAP {
            return CC_ERROR;
        }
        el.el_state.argument = el.el_state.argument * 10 + digit;
    } else {
        el.el_state.argument = digit;
        el.el_state.doingarg = 1;
    }
    proof {
        let (expected, _) = argument_digit_spec(old(el)@, c);
        assert(el@ =~= expected);
    }
    CC_ARGHACK
}

/// `ed_delete_prev_char`: from the start of the line it fails; otherwise
/// the argument's count of characters before the cursor is deleted as
/// `c_delbefore` deletes it and the cursor moves back by the argument, not
/// below the start.
pub open spec fn delete_prev_char_spec(v: EditView) -> (EditView, u8) {
    if v.line.cursor == 0 {
        (v, CC_ERROR)
    } else {
        let moved = v.line.cursor - v.state.argument;
        (with_cursor(delbefore_spec(v, v.state.argument as int), if moved < 0 { 0 } else { moved }), CC_REFRESH)
    }
}

/// Delete the character before the cursor, the argument's count of times.
pub fn ed_delete_prev_char(el: &mut EditLine, c: u32) -> (result: u8)
    requires
        old(el).wf(),
        old(el).el_line.cursor - old(el).el_state.argument <= old(el).el_line.limit + 1,
    ensures
        final(el).wf(),
        (final(el)@, result) == delete_prev_char_spec(old(el)@),
{
    let cursor = el.el_line.cursor;
    if cursor == 0 {
        return CC_ERROR;
    }
    let count = el.el_state.argument;
    c_delbefore(el, count);
    let moved = cursor as i64 - count as i64;
    el.el_line.cursor = if moved < 0 {
        0
    } else {
        moved as usize
    };
    proof {
        let (expected, _) = delete_prev_char_spec(old(el)@);
        assert(el@ =~= expected);
    }
    CC_REFRESH
}

/// `ed_newline`: a newline is stored after the text, which then ends after
/// it, and a zero follows.
pub open spec fn newline_spec(v: EditView) -> EditView {
    let l = v.line.lastchar as int;
    EditView {
        line: LineView { buffer: v.line.buffer.update(l, 0x0Au32).update(l + 1, 0u32), lastchar: (l + 1) as usize, ..v.line },
        ..v
    }
}

/// End the line: the newline becomes part of it. The caller moves the
/// display below the line.
pub fn ed_newline(el: &mut EditLine, c: u32) -> (result: u8)
    requires
        old(el).wf(),
        old(el).el_line.lastchar <= old(el).el_line.limit,
    ensures
        final(el).wf(),
        final(el)@ == newline_spec(old(el)@),
        result == CC_NEWLINE,
{
    let at = el.el_line.lastchar;
    el.el_line.buffer.set(at, 0x0A);
    el.el_line.lastchar = at + 1;
    el.el_line.buffer.set(at + 1, 0);
    proof {
        assert(el@ =~= newline_spec(old(el)@));
    }
    CC_NEWLINE
}

/// `ed_end_of_file`: a zero is stored after the text, which is otherwise
/// left as it is.
pub open spec fn end_of_file_spec(v: EditView) -> EditView {
    EditView { line: LineView { buffer: v.line.buffer.update(v.line.lastchar as int, 0u32), ..v.line }, ..v }
}

/// End the input. The caller moves the display below the line.
pub fn ed_end_of_file(el: &mut EditLine, c: u32) -> (result: u8)
    requires
        old(el).wf(),
    ensures
        final(el).wf(),
        final(el)@ == end_of_file_spec(old(el)@),
        result == CC_EOF,
{
    let at = el.el_line.lastchar;
    el.el_line.buffer.set(at, 0);
    proof {
        assert(el@ =~= end_of_file_spec(old(el)@));
    }
    CC_EOF
}

/// The command of an unbound key: it fails, so the bell rings.
pub fn ed_unassigned(el: &mut EditLine, c: u32) -> (result: u8)
    ensures
        final(el)@ == old(el)@,
        result == CC_ERROR,
{
    CC_ERROR
}

/// The command of a key to be swallowed: nothing happens.
pub fn ed_ignore(el: &mut EditLine, c: u32) -> (result: u8)
    ensures
        final(el)@ == old(el)@,
        result == CC_NORM,
{
    CC_NORM
}

/// The command bound to the first key of a longer sequence, reached when
/// the sequence did not complete: the key is swallowed.
pub fn ed_sequence_lead_in(el: &mut EditLine, c: u32) -> (result: u8)
    ensures
        final(el)@ == old(el)@,
        result == CC_NORM,
{
    CC_NORM
}

/// The command that redraws everything, prompt included.
pub fn ed_redisplay(el: &mut EditLine, c: u32) -> (result: u8)
    ensures
        final(el)@ == old(el)@,
        result == CC_REDISPLAY,
{
    CC_REDISPLAY
}

/// How the caller brings the display up to date after an insertion: draw
/// the one character typed, or redraw the line.
#[derive(Debug, Clone, Copy, PartialEq, Eq, Structural)]
pub enum Redraw {
    Nothing,
    AddChar,
    Line,
}

/// The end of a motion: in vi a pending operator is finished over the span
/// the motion covered, which redraws the line; otherwise only the cursor
/// moves.
pub open spec fn end_vi_motion_spec(v: EditView) -> (EditView, u8) {
    if v.map_type == MAP_VI && v.vcmd.action != NOP {
        (delfini_spec(v).0, CC_REFRESH)
    } else {
        (v, CC_CURSOR)
    }
}

fn end_vi_motion(el: &mut EditLine) -> (result: u8)
    requires
        old(el).wf(),
    ensures
        final(el).wf(),
        (final(el)@, result) == end_vi_motion_spec(old(el)@),
{
    if el.el_map.map_type == MAP_VI && el.el_chared.c_vcmd.action != NOP {
        let _ = cv_delfini(el);
        CC_REFRESH
    } else {
        CC_CURSOR
    }
}

/// vi command mode: any pending operator and argument are dropped, the
/// next character typed inserts, the alternative key map reads the next
/// key, and the cursor steps back onto the character before it.
pub open spec fn command_mode_spec(v: EditView) -> EditView {
    EditView {
        vcmd: CVcmdT { action: NOP, pos: 0 },
        state: ElStateT { doingarg: 0, inputmode: MODE_INSERT, ..v.state },
        current: ElMapCurrent::Alt,
        line: LineView {
            cursor: if v.line.cursor > 0 {
                (v.line.cursor - 1) as usize
            } else {
                0
            },
            ..v.line
        },
        ..v
    }
}

fn enter_command_mode(el: &mut EditLine) -> (result: u8)
    requires
        old(el).wf(),
    ensures
        final(el).wf(),
        final(el)@ == command_mode_spec(old(el)@),
        result == CC_CURSOR,
{
    el.el_chared.c_vcmd.action = NOP;
    el.el_chared.c_vcmd.pos = 0;
    el.el_state.doingarg = 0;
    el.el_state.inputmode = MODE_INSERT;
    el.el_map.current = ElMapCurrent::Alt;
    if el.el_line.cursor > 0 {
        el.el_line.cursor = el.el_line.cursor - 1;
    }
    proof {
        assert(el@ =~= command_mode_spec(old(el)@));
    }
    CC_CURSOR
}

/// `ed_next_char`: at the end of the line it fails, and so it does in vi
/// on the last character with no operator pending; otherwise the cursor
/// moves right by the argument, not past the end, and the motion ends.
pub open spec fn next_char_spec(v: EditView) -> (EditView, u8) {
    let lim = v.line.lastchar as int;
    let cur = v.line.cursor as int;
    if cur >= lim || (cur + 1 == lim && v.map_type == MAP_VI && v.vcmd.action == NOP) {
        (v, CC_ERROR)
    } else {
        let moved = cur + v.state.argument;
        end_vi_motion_spec(
            with_cursor(
                v,
                if moved < 0 {
                    0
                } else if moved > lim {
                    lim
                } else {
                    moved
                },
            ),
        )
    }
}

/// Move right by the argument's count of characters.
pub fn ed_next_char(el: &mut EditLine, c: u32) -> (result: u8)
    requires
        old(el).wf(),
    ensures
        final(el).wf(),
        (final(el)@, result) == next_char_spec(old(el)@),
{
    let lim = el.el_line.lastchar;
    let cursor = el.el_line.cursor;
    if cursor >= lim || (cursor + 1 == lim && el.el_map.map_type == MAP_VI && el.el_chared.c_vcmd.action == NOP) {
        return CC_ERROR;
    }
    let moved = cursor as i64 + el.el_state.argument as i64;
    el.el_line.cursor = if moved < 0 {
        0
    } else if moved > lim as i64 {
        lim
    } else {
        moved as usize
    };
    let ghost moved_view = el@;
    let result = end_vi_motion(el);
    proof {
        let m = cursor + old(el).el_state.argument;
        assert(moved_view =~= with_cursor(
            old(el)@,
            if m < 0 {
                0
            } else if m > lim {
                lim as int
            } else {
                m
            },
        ));
    }
    result
}

/// `ed_prev_char`: at the start of the line it fails; otherwise the cursor
/// moves left by the argument, within the line, and the motion ends.
pub open spec fn prev_char_spec(v: EditView) -> (EditView, u8) {
    if v.line.cursor == 0 {
        (v, CC_ERROR)
    } else {
        let moved = v.line.cursor - v.state.argument;
        end_vi_motion_spec(
            with_cursor(
                v,
                if moved < 0 {
                    0
                } else if moved > v.line.lastchar {
                    v.line.lastchar as int
                } else {
                    moved
                },
            ),
        )
    }
}

/// Move left by the argument's count of characters.
pub fn ed_prev_char(el: &mut EditLine, c: u32) -> (result: u8)
    requires
        old(el).wf(),
    ensures
        final(el).wf(),
        (final(el)@, result) == prev_char_spec(old(el)@),
{
    let cursor = el.el_line.cursor;
    if cursor == 0 {
        return CC_ERROR;
    }
    let lastchar = el.el_line.lastchar;
    let moved = cursor as i64 - el.el_state.argument as i64;
    el.el_line.cursor = if moved < 0 {
        0
    } else if moved > lastchar as i64 {
        lastchar
    } else {
        moved as usize
    };
    let ghost moved_view = el@;
    let result = end_vi_motion(el);
    proof {
        let m = cursor - old(el).el_state.argument;
        assert(moved_view =~= with_cursor(
            old(el)@,
            if m < 0 {
                0
            } else if m > lastchar {
                lastchar as int
            } else {
                m
            },
        ));
    }
    result
}

/// `ed_prev_word`: at the start of the line it fails; otherwise the cursor
/// moves back by the argument's count of emacs words and the motion ends.
pub open spec fn prev_word_command_spec(v: EditView) -> (EditView, u8) {
    if v.line.cursor == 0 {
        (v, CC_ERROR)
    } else {
        end_vi_motion_spec(
            with_cursor(v, prev_word_start(v, WordTest::Emacs, v.line.cursor as int, 0, v.state.argument as int)),
        )
    }
}

/// Move back by the argument's count of words.
pub fn ed_prev_word(el: &mut EditLine, c: u32) -> (result: u8)
    requires
        old(el).wf(),
    ensures
        final(el).wf(),
        (final(el)@, result) == prev_word_command_spec(old(el)@),
{
    let cursor = el.el_line.cursor;
    if cursor == 0 {
        return CC_ERROR;
    }
    let start = c_prev_word(el, cursor, 0, el.el_state.argument, WordTest::Emacs);
    el.el_line.cursor = start;
    let ghost moved_view = el@;
    let result = end_vi_motion(el);
    proof {
        assert(moved_view =~= with_cursor(
            old(el)@,
            prev_word_start(old(el)@, WordTest::Emacs, cursor as int, 0, old(el).el_state.argument as int),
        ));
    }
    result
}

/// `ed_move_to_end`: the cursor goes to the end of the line; in vi a
/// pending operator is finished there, and otherwise the cursor steps back
/// onto the last character.
pub open spec fn move_to_end_spec(v: EditView) -> (EditView, u8) {
    let at_end = with_cursor(v, v.line.lastchar as int);
    if v.map_type != MAP_VI {
        (at_end, CC_CURSOR)
    } else if v.vcmd.action != NOP {
        (delfini_spec(at_end).0, CC_REFRESH)
    } else {
        (
            with_cursor(
                at_end,
                if v.line.lastchar > 0 {
                    v.line.lastchar - 1
                } else {
                    0
                },
            ),
            CC_CURSOR,
        )
    }
}

/// Move to the end of the line.
pub fn ed_move_to_end(el: &mut EditLine, c: u32) -> (result: u8)
    requires
        old(el).wf(),
    ensures
        final(el).wf(),
        (final(el)@, result) == move_to_end_spec(old(el)@),
{
    el.el_line.cursor = el.el_line.lastchar;
    proof {
        assert(el@ =~= with_cursor(old(el)@, old(el).el_line.lastchar as int));
    }
    if el.el_map.map_type != MAP_VI {
        return CC_CURSOR;
    }
    if el.el_chared.c_vcmd.action != NOP {
        let _ = cv_delfini(el);
        return CC_REFRESH;
    }
    if el.el_line.cursor > 0 {
        el.el_line.cursor = el.el_line.cursor - 1;
    }
    proof {
        let (expected, _) = move_to_end_spec(old(el)@);
        assert(el@ =~= expected);
    }
    CC_CURSOR
}

/// `ed_move_to_beg`: the cursor goes to the start of the line, in vi past
/// its leading white space, and the motion ends.
pub open spec fn move_to_beg_spec(v: EditView) -> (EditView, u8) {
    let start = if v.map_type == MAP_VI {
        scan_up(with_cursor(v, 0), Run::Space, 0, v.line.lastchar as int)
    } else {
        0
    };
    end_vi_motion_spec(with_cursor(v, start))
}

/// Move to the start of the line.
pub fn ed_move_to_beg(el: &mut EditLine, c: u32) -> (result: u8)
    requires
        old(el).wf(),
    ensures
        final(el).wf(),
        (final(el)@, result) == move_to_beg_spec(old(el)@),
{
    el.el_line.cursor = 0;
    if el.el_map.map_type == MAP_VI {
        let lastchar = el.el_line.lastchar;
        let start = scan_forward(el, Run::Space, 0, lastchar);
        el.el_line.cursor = start;
    }
    let ghost moved_view = el@;
    let result = end_vi_motion(el);
    proof {
        let start = if old(el).el_map.map_type == MAP_VI {
            scan_up(with_cursor(old(el)@, 0), Run::Space, 0, old(el).el_line.lastchar as int)
        } else {
            0
        };
        assert(moved_view =~= with_cursor(old(el)@, start));
    }
    result
}

/// How many embedded newlines lie in `buf` from `from` up to, not
/// including, `to`.
pub open spec fn newlines_from(buf: Seq<u32>, from: int, to: int) -> int
    decreases to - from,
{
    if from >= to {
        0
    } else {
        (if buf[from] == 0x0A {
            1int
        } else {
            0int
        }) + newlines_from(buf, from + 1, to)
    }
}

/// How many embedded newlines lie in `buf` from its start up to and
/// including `p`.
pub open spec fn newlines_upto(buf: Seq<u32>, p: int) -> int
    decreases p + 1,
{
    if p < 0 {
        0
    } else {
        (if buf[p] == 0x0A {
            1int
        } else {
            0int
        }) + newlines_upto(buf, p - 1)
    }
}

/// Where the `k`-th embedded newline from `p` on lies, below `end`.
pub open spec fn kth_newline_down(buf: Seq<u32>, p: int, end: int, k: int) -> int
    decreases end - p,
{
    if p >= end {
        end
    } else if buf[p] == 0x0A {
        if k <= 1 {
            p
        } else {
            kth_newline_down(buf, p + 1, end, k - 1)
        }
    } else {
        kth_newline_down(buf, p + 1, end, k)
    }
}

/// Where the `k`-th embedded newline from `p` down lies, or -1.
pub open spec fn kth_newline_up(buf: Seq<u32>, p: int, k: int) -> int
    decreases p + 1,
{
    if p < 0 {
        -1
    } else if buf[p] == 0x0A {
        if k <= 1 {
            p
        } else {
            kth_newline_up(buf, p - 1, k - 1)
        }
    } else {
        kth_newline_up(buf, p - 1, k)
    }
}

/// The last embedded newline at or below `p`, or -1.
pub open spec fn newline_at_or_before(buf: Seq<u32>, p: int) -> int
    decreases p + 1,
{
    if p < 0 {
        -1
    } else if buf[p] == 0x0A {
        p
    } else {
        newline_at_or_before(buf, p - 1)
    }
}

/// From `p`, up to `n` steps right, stopping at `end` or on a newline.
pub open spec fn walk_column(buf: Seq<u32>, p: int, end: int, n: int) -> int
    decreases end - p,
{
    if n <= 0 || p >= end || buf[p] == 0x0A {
        p
    } else {
        walk_column(buf, p + 1, end, n - 1)
    }
}

/// The editor with the numeric argument `argument`.
pub open spec fn with_argument(v: EditView, argument: int) -> EditView {
    EditView { state: ElStateT { argument: argument as i32, ..v.state }, ..v }
}

/// `ed_next_line`: with no positive argument nothing moves. Otherwise the
/// argument counts down once for each embedded newline from the cursor on;
/// with too few of them it fails, the cursor staying where it is. Else the
/// cursor goes past the argument-th of them and along that line to the
/// cursor's column, or to that line's end where it is shorter.
pub open spec fn next_line_spec(v: EditView) -> (EditView, u8) {
    let buf = v.line.buffer;
    let c = v.line.cursor as int;
    let l = v.line.lastchar as int;
    let k = v.state.argument as int;
    if k <= 0 {
        (v, CC_CURSOR)
    } else if newlines_from(buf, c, l) < k {
        (with_argument(v, k - newlines_from(buf, c, l)), CC_ERROR)
    } else {
        let nl = kth_newline_down(buf, c, l, k);
        (with_argument(with_cursor(v, walk_column(buf, nl + 1, l, column_of(buf, c))), 0), CC_CURSOR)
    }
}

proof fn lemma_kth_newline_down(buf: Seq<u32>, p: int, end: int, k: int)
    requires
        0 <= p <= end <= buf.len(),
        1 <= k <= newlines_from(buf, p, end),
    ensures
        p <= kth_newline_down(buf, p, end, k) < end,
        buf[kth_newline_down(buf, p, end, k)] == 0x0A,
    decreases end - p,
{
    if p < end {
        if buf[p] == 0x0A {
            if k > 1 {
                lemma_kth_newline_down(buf, p + 1, end, k - 1);
            }
        } else {
            lemma_kth_newline_down(buf, p + 1, end, k);
        }
    }
}

proof fn lemma_walk_column(buf: Seq<u32>, p: int, end: int, n: int)
    ensures
        p <= walk_column(buf, p, end, n),
        p <= end ==> walk_column(buf, p, end, n) <= end,
        p > end ==> walk_column(buf, p, end, n) == p,
    decreases end - p,
{
    if !(n <= 0 || p >= end || buf[p] == 0x0A) {
        lemma_walk_column(buf, p + 1, end, n - 1);
    }
}

/// Walk right from `p` by up to `n` characters of the line.
fn walk_to_column(el: &EditLine, p: usize, n: i32) -> (end: usize)
    requires
        el.wf(),
    ensures
        end == walk_column(el@.line.buffer, p as int, el.el_line.lastchar as int, n as int),
{
    let lastchar = el.el_line.lastchar;
    let mut ptr = p;
    let mut left = n;
    while left > 0 && ptr < lastchar && el.el_line.buffer[ptr] != 0x0A
        invariant
            el.wf(),
            lastchar == el.el_line.lastchar,
            p <= ptr,
            ptr <= lastchar || ptr == p,
            walk_column(el@.line.buffer, ptr as int, lastchar as int, left as int) == walk_column(
                el@.line.buffer,
                p as int,
                lastchar as int,
                n as int,
            ),
        decreases lastchar - ptr,
    {
        left = left - 1;
        ptr = ptr + 1;
    }
    ptr
}

/// Move down the argument's count of embedded lines, keeping the column.
pub fn ed_next_line(el: &mut EditLine, c: u32) -> (result: u8)
    requires
        old(el).wf(),
    ensures
        final(el).wf(),
        (final(el)@, result) == next_line_spec(old(el)@),
{
    let nchars = c_hpos(&el.el_line);
    if el.el_state.argument <= 0 {
        return CC_CURSOR;
    }
    let ghost buf = el@.line.buffer;
    let ghost k = el.el_state.argument as int;
    let cursor = el.el_line.cursor;
    let lastchar = el.el_line.lastchar;
    let mut ptr = cursor;
    while ptr < lastchar
        invariant_except_break
            el.el_state.argument > 0,
            k - el.el_state.argument + newlines_from(buf, ptr as int, lastchar as int) == newlines_from(
                buf,
                cursor as int,
                lastchar as int,
            ),
            el.el_state.argument > 0 ==> kth_newline_down(buf, ptr as int, lastchar as int, el.el_state.argument as int)
                == kth_newline_down(buf, cursor as int, lastchar as int, k),
        invariant
            el.wf(),
            el@ == with_argument(old(el)@, el.el_state.argument as int),
            buf == el@.line.buffer,
            cursor == el.el_line.cursor,
            lastchar == el.el_line.lastchar,
            k == old(el).el_state.argument,
            0 < k,
            cursor <= ptr,
            ptr <= lastchar || ptr == cursor,
        ensures
            el.wf(),
            el@ == with_argument(old(el)@, el.el_state.argument as int),
            cursor <= ptr,
            ptr <= lastchar || ptr == cursor,
            el.el_state.argument > 0 ==> k - el.el_state.argument == newlines_from(buf, cursor as int, lastchar as int),
            el.el_state.argument <= 0 ==> el.el_state.argument == 0 && ptr < lastchar && ptr as int == kth_newline_down(
                buf,
                cursor as int,
                lastchar as int,
                k,
            ) && newlines_from(buf, cursor as int, lastchar as int) >= k,
        decreases lastchar - ptr,
    {
        if el.el_line.buffer[ptr] == 0x0A {
            el.el_state.argument = el.el_state.argument - 1;
            if el.el_state.argument <= 0 {
                proof {
                    assert(newlines_from(buf, ptr + 1, lastchar as int) >= 0) by {
                        lemma_newlines_nonneg(buf, ptr + 1, lastchar as int);
                    }
                }
                break;
            }
        }
        ptr = ptr + 1;
    }
    if el.el_state.argument > 0 {
        return CC_ERROR;
    }
    let end = walk_to_column(el, ptr + 1, nchars);
    proof {
        lemma_walk_column(buf, ptr + 1, lastchar as int, nchars as int);
    }
    el.el_line.cursor = end;
    proof {
        assert(el@ =~= with_argument(with_cursor(old(el)@, end as int), 0));
    }
    CC_CURSOR
}

proof fn lemma_newlines_nonneg(buf: Seq<u32>, from: int, to: int)
    ensures
        newlines_from(buf, from, to) >= 0,
    decreases to - from,
{
    if from < to {
        lemma_newlines_nonneg(buf, from + 1, to);
    }
}

/// `ed_prev_line`: with no positive argument nothing moves. Otherwise the
/// argument counts down once for each embedded newline at or before the
/// cursor, not counting one under the cursor; with too few of them it
/// fails, the cursor staying where it is. Else the cursor goes to the start
/// of the line before the argument-th of them and along it to the cursor's
/// column, or to that line's end where it is shorter.
pub open spec fn prev_line_spec(v: EditView) -> (EditView, u8) {
    let buf = v.line.buffer;
    let c = v.line.cursor as int;
    let l = v.line.lastchar as int;
    let k = v.state.argument as int;
    let top = if line_at_spec(buf, c) == 0x0A {
        c - 1
    } else {
        c
    };
    if k <= 0 {
        (v, CC_CURSOR)
    } else if newlines_upto(buf, top) < k {
        (with_argument(v, k - newlines_upto(buf, top)), CC_ERROR)
    } else {
        let nl = kth_newline_up(buf, top, k);
        let start = newline_at_or_before(buf, nl - 1) + 1;
        (with_argument(with_cursor(v, walk_column(buf, start, l, column_of(buf, c))), 0), CC_CURSOR)
    }
}

proof fn lemma_newlines_upto_nonneg(buf: Seq<u32>, p: int)
    ensures
        newlines_upto(buf, p) >= 0,
    decreases p + 1,
{
    if p >= 0 {
        lemma_newlines_upto_nonneg(buf, p - 1);
    }
}

proof fn lemma_newline_at_or_before(buf: Seq<u32>, p: int)
    ensures
        -1 <= newline_at_or_before(buf, p) <= if p < 0 { -1 } else { p },
    decreases p + 1,
{
    if p >= 0 {
        lemma_newline_at_or_before(buf, p - 1);
    }
}

/// Move up the argument's count of embedded lines, keeping the column.
pub fn ed_prev_line(el: &mut EditLine, c: u32) -> (result: u8)
    requires
        old(el).wf(),
    ensures
        final(el).wf(),
        (final(el)@, result) == prev_line_spec(old(el)@),
{
    let nchars = c_hpos(&el.el_line);
    if el.el_state.argument <= 0 {
        return CC_CURSOR;
    }
    let ghost buf = el@.line.buffer;
    let ghost k = el.el_state.argument as int;
    let cursor = el.el_line.cursor;
    let lastchar = el.el_line.lastchar;
    // `q` is one past the slot being looked at.
    let mut q: usize = if line_at(el, cursor) == 0x0A {
        cursor
    } else {
        cursor + 1
    };
    let ghost top = q as int - 1;
    while q > 0
        invariant_except_break
            el.el_state.argument > 0,
            k - el.el_state.argument + newlines_upto(buf, q - 1) == newlines_upto(buf, top),
            kth_newline_up(buf, q - 1, el.el_state.argument as int) == kth_newline_up(buf, top, k),
        invariant
            el.wf(),
            el@ == with_argument(old(el)@, el.el_state.argument as int),
            buf == el@.line.buffer,
            cursor == el.el_line.cursor,
            lastchar == el.el_line.lastchar,
            k == old(el).el_state.argument,
            0 < k,
            top < buf.len(),
            q <= top + 1,
        ensures
            el.wf(),
            el@ == with_argument(old(el)@, el.el_state.argument as int),
            el.el_state.argument > 0 ==> k - el.el_state.argument == newlines_upto(buf, top),
            el.el_state.argument <= 0 ==> el.el_state.argument == 0 && q >= 1 && q - 1 == kth_newline_up(buf, top, k)
                && newlines_upto(buf, top) >= k,
        decreases q,
    {
        if el.el_line.buffer[q - 1] == 0x0A {
            el.el_state.argument = el.el_state.argument - 1;
            if el.el_state.argument <= 0 {
                proof {
                    lemma_newlines_upto_nonneg(buf, q - 2);
                }
                break;
            }
        }
        q = q - 1;
    }
    if el.el_state.argument > 0 {
        return CC_ERROR;
    }
    let ghost nl = q as int - 1;
    // `r` is one past the slot being looked at, from the one before the
    // newline down to the start of that line.
    let mut r: usize = q - 1;
    while r > 0 && el.el_line.buffer[r - 1] != 0x0A
        invariant
            el.wf(),
            buf == el@.line.buffer,
            r <= nl < buf.len(),
            newline_at_or_before(buf, r - 1) == newline_at_or_before(buf, nl - 1),
        decreases r,
    {
        r = r - 1;
    }
    proof {
        lemma_newline_at_or_before(buf, nl - 1);
    }
    let end = walk_to_column(el, r, nchars);
    proof {
        lemma_walk_column(buf, r as int, lastchar as int, nchars as int);
    }
    el.el_line.cursor = end;
    proof {
        assert(el@ =~= with_argument(with_cursor(old(el)@, end as int), 0));
    }
    CC_CURSOR
}

/// The text after `k` copies of `c` were written from the cursor, and the
/// cursor after them.
pub open spec fn written_spec(v: EditView, c: u32, k: int) -> EditView {
    let cur = v.line.cursor as int;
    let buf = v.line.buffer;
    EditView {
        line: LineView {
            buffer: buf.subrange(0, cur) + Seq::new(k as nat, |i: int| c) + buf.subrange(cur + k, buf.len() as int),
            cursor: (cur + k) as usize,
            ..v.line
        },
        ..v
    }
}

/// `ed_insert`: the zero character fails; the buffers grow first when the
/// argument's count of characters would reach the limit, and a refused
/// growth fails. One character opens a slot (only in insert mode or at the
/// end of the text) and is stored at the cursor, for the caller to draw;
/// another count opens a gap of the count (except in single-replace mode)
/// and stores that many copies, as far as the text reaches, for the caller
/// to redraw the line. In single-replace mode vi command mode follows.
pub open spec fn insert_key_spec(v: EditView, c: u32) -> (EditView, u8, Redraw) {
    let count = v.state.argument as int;
    let needs = v.line.lastchar + count >= v.line.limit;
    let grow = enlarge_size(v, (v.state.argument as usize) as int);
    if c == 0 || (needs && grow > EL_LINE_MAX) {
        (v, CC_ERROR, Redraw::Nothing)
    } else {
        let v1 = if needs {
            enlarged_spec(v, grow)
        } else {
            v
        };
        let v2 = if count == 1 {
            place_one_spec(v1, c)
        } else {
            place_counted_spec(v1, c, count)
        };
        let redraw = if count == 1 {
            Redraw::AddChar
        } else {
            Redraw::Line
        };
        if v2.state.inputmode == MODE_REPLACE_1 {
            (command_mode_spec(v2), CC_CURSOR, redraw)
        } else {
            (v2, CC_NORM, redraw)
        }
    }
}

fn write_copies(el: &mut EditLine, c: u32, k: usize)
    requires
        old(el).wf(),
        old(el).el_line.cursor + k <= old(el).el_line.lastchar,
    ensures
        final(el).wf(),
        final(el)@ == written_spec(old(el)@, c, k as int),
{
    let ghost v3 = el@;
    let cursor = el.el_line.cursor;
    let mut i: usize = 0;
    while i < k
        invariant
            i <= k,
            cursor == v3.line.cursor,
            cursor + k <= v3.line.lastchar,
            v3.line.lastchar <= v3.line.limit + 1,
            v3.line.buffer.len() == v3.line.limit + EL_LEAVE,
            el.el_line.buffer@ == v3.line.buffer.subrange(0, cursor as int) + Seq::new(i as nat, |j: int| c)
                + v3.line.buffer.subrange(cursor + i, v3.line.buffer.len() as int),
            el@ == (EditView {
                line: LineView { buffer: el.el_line.buffer@, cursor: (cursor + i) as usize, ..v3.line },
                ..v3
            }),
            el.wf(),
        decreases k - i,
    {
        el.el_line.buffer.set(cursor + i, c);
        el.el_line.cursor = cursor + i + 1;
        proof {
            assert(el.el_line.buffer@ =~= v3.line.buffer.subrange(0, cursor as int) + Seq::new(
                (i + 1) as nat,
                |j: int| c,
            ) + v3.line.buffer.subrange(cursor + i + 1, v3.line.buffer.len() as int));
        }
        i = i + 1;
    }
    proof {
        assert(el@ =~= written_spec(v3, c, k as int));
    }
}

/// One typed character at the cursor: a slot is opened for it in insert
/// mode or at the end of the text, and it is stored there.
pub open spec fn place_one_spec(v: EditView, c: u32) -> EditView {
    let v3 = if v.state.inputmode == MODE_INSERT || v.line.cursor >= v.line.lastchar {
        insert_spec(v, 1)
    } else {
        v
    };
    written_spec(v3, c, 1)
}

fn place_one(el: &mut EditLine, c: u32)
    requires
        old(el).wf(),
        old(el).el_line.cursor <= old(el).el_line.lastchar,
        old(el).el_line.lastchar + 1 < old(el).el_line.limit || enlarge_size(old(el)@, 1) <= EL_LINE_MAX,
    ensures
        final(el).wf(),
        final(el)@ == place_one_spec(old(el)@, c),
{
    if el.el_state.inputmode == MODE_INSERT || el.el_line.cursor >= el.el_line.lastchar {
        c_insert(el, 1);
    }
    let ghost v3 = el@;
    let at = el.el_line.cursor;
    el.el_line.buffer.set(at, c);
    el.el_line.cursor = at + 1;
    proof {
        assert(el@ =~= written_spec(v3, c, 1));
    }
}

/// A counted insertion: a gap of the count is opened except in
/// single-replace mode, and that many copies are stored from the cursor, as
/// far as the text reaches; a negative count fills to the end of the text.
pub open spec fn place_counted_spec(v: EditView, c: u32, count: int) -> EditView {
    let v3 = if v.state.inputmode != MODE_REPLACE_1 {
        insert_spec(v, count)
    } else {
        v
    };
    let room = v3.line.lastchar - v3.line.cursor;
    written_spec(
        v3,
        c,
        if count >= 0 && count < room {
            count
        } else {
            room
        },
    )
}

fn place_counted(el: &mut EditLine, c: u32, count: i32)
    requires
        old(el).wf(),
        old(el).el_line.cursor <= old(el).el_line.lastchar,
    ensures
        final(el).wf(),
        final(el)@ == place_counted_spec(old(el)@, c, count as int),
{
    if el.el_state.inputmode != MODE_REPLACE_1 {
        c_insert(el, count);
    }
    let room = el.el_line.lastchar - el.el_line.cursor;
    let k: usize = if count >= 0 && (count as usize) < room {
        count as usize
    } else {
        room
    };
    write_copies(el, c, k);
}

/// Insert the typed character the argument's count of times, or replace
/// with it in the replace modes.
pub fn ed_insert(el: &mut EditLine, c: u32) -> (result: (u8, Redraw))
    requires
        old(el).wf(),
        old(el).el_line.cursor <= old(el).el_line.lastchar,
    ensures
        final(el).wf(),
        (final(el)@, result.0, result.1) == insert_key_spec(old(el)@, c),
{
    let count = el.el_state.argument;
    if c == 0 {
        return (CC_ERROR, Redraw::Nothing);
    }
    let ghost v = el@;
    let ghost sz = (v.line.limit + EL_LEAVE) as int;
    proof {
        lemma_grow_until(sz, (count as usize) as int, 2 * sz);
    }
    if el.el_line.lastchar as i64 + count as i64 >= el.el_line.limit as i64 {
        if ch_enlargebufs(el, count as usize) == 0 {
            return (CC_ERROR, Redraw::Nothing);
        }
    }
    let ghost v1 = el@;
    proof {
        let sz1 = (v1.line.limit + EL_LEAVE) as int;
        lemma_grow_until(sz1, 1, 2 * sz1);
    }
    let redraw;
    if count == 1 {
        place_one(el, c);
        redraw = Redraw::AddChar;
    } else {
        place_counted(el, c, count);
        redraw = Redraw::Line;
    }
    if el.el_state.inputmode == MODE_REPLACE_1 {
        let result = enter_command_mode(el);
        return (result, redraw);
    }
    (CC_NORM, redraw)
}

} // verus!
