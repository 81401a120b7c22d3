//! Cursor destinations, edit regions and exact searches over logical text.

use crate::domain::{Direction, EditTarget, Error, Motion, Text, TextIndex, TextSpan, TextUnit, WordKind};
use crate::unicode::{char_is_alphanumeric, char_is_whitespace, is_alphanumeric, is_whitespace};
use vstd::prelude::*;

verus! {

/// How a word motion classifies one logical unit.
#[derive(Debug, Clone, Copy, PartialEq, Eq, Structural)]
pub enum WordClass {
    Space,
    Word,
    Other,
}

/// A whitespace scalar.
pub open spec fn unit_is_space(unit: TextUnit) -> bool {
    unit matches TextUnit::Scalar(c) && char_is_whitespace(c)
}

/// An alphanumeric scalar or underscore.
pub open spec fn unit_is_word(unit: TextUnit) -> bool {
    unit matches TextUnit::Scalar(c) && (char_is_alphanumeric(c) || c == '_')
}

/// The embedded line delimiter.
pub open spec fn unit_is_newline(unit: TextUnit) -> bool {
    unit == TextUnit::Scalar('\n')
}

/// The class of a unit under a word rule.
pub open spec fn class_of(unit: TextUnit, kind: WordKind) -> WordClass {
    if unit_is_space(unit) {
        WordClass::Space
    } else if kind == WordKind::BigWord || unit_is_word(unit) {
        WordClass::Word
    } else {
        WordClass::Other
    }
}

/// The first position at or after `pos` whose unit is not of `class`.
pub open spec fn skip_forward(units: Seq<TextUnit>, pos: int, kind: WordKind, class: WordClass) -> int
    decreases units.len() - pos,
{
    if 0 <= pos < units.len() && class_of(units[pos], kind) == class {
        skip_forward(units, pos + 1, kind, class)
    } else {
        pos
    }
}

/// The first position at or before `pos` whose preceding unit is not of
/// `class`.
pub open spec fn skip_backward(units: Seq<TextUnit>, pos: int, kind: WordKind, class: WordClass) -> int
    decreases pos,
{
    if 0 < pos <= units.len() && class_of(units[pos - 1], kind) == class {
        skip_backward(units, pos - 1, kind, class)
    } else {
        pos
    }
}

/// The start of the next word: past the run under `pos` and the blanks
/// after it.
pub open spec fn next_word(units: Seq<TextUnit>, pos: int, kind: WordKind) -> int {
    if pos >= units.len() {
        units.len() as int
    } else {
        let after_run = if unit_is_space(units[pos]) {
            pos
        } else {
            skip_forward(units, pos, kind, class_of(units[pos], kind))
        };
        skip_forward(units, after_run, kind, WordClass::Space)
    }
}

/// The start of the word before `pos`, skipping blanks first.
pub open spec fn previous_word(units: Seq<TextUnit>, pos: int, kind: WordKind) -> int {
    let p = skip_backward(units, pos, kind, WordClass::Space);
    if p == 0 {
        0
    } else {
        skip_backward(units, p, kind, class_of(units[p - 1], kind))
    }
}

/// The word boundary in a direction.
pub open spec fn word_boundary(units: Seq<TextUnit>, pos: int, direction: Direction, kind: WordKind) -> int {
    match direction {
        Direction::Previous => previous_word(units, pos, kind),
        Direction::Next => next_word(units, pos, kind),
    }
}

/// The start of the embedded line holding `cursor`: just after the last
/// newline before it, or 0.
pub open spec fn line_start(units: Seq<TextUnit>, cursor: int) -> int
    decreases cursor,
{
    if cursor <= 0 {
        0
    } else if unit_is_newline(units[cursor - 1]) {
        cursor
    } else {
        line_start(units, cursor - 1)
    }
}

/// The end of the embedded line holding `cursor`: the first newline at or
/// after it, or the end of the text.
pub open spec fn line_end(units: Seq<TextUnit>, cursor: int) -> int
    decreases units.len() - cursor,
{
    if cursor >= units.len() {
        units.len() as int
    } else if unit_is_newline(units[cursor]) {
        cursor
    } else {
        line_end(units, cursor + 1)
    }
}

pub open spec fn min_int(a: int, b: int) -> int {
    if a <= b {
        a
    } else {
        b
    }
}

/// The same column on the neighbouring embedded line, clamped to its end;
/// the cursor itself when there is no such line.
pub open spec fn adjacent_line(units: Seq<TextUnit>, cursor: int, direction: Direction) -> int {
    let start = line_start(units, cursor);
    let column = cursor - start;
    match direction {
        Direction::Previous => if start > 0 {
            let previous_end = start - 1;
            let previous_start = line_start(units, previous_end);
            previous_start + min_int(column, previous_end - previous_start)
        } else {
            cursor
        },
        Direction::Next => {
            let end = line_end(units, cursor);
            if end == units.len() {
                cursor
            } else {
                let next_start = end + 1;
                let next_end = line_end(units, next_start);
                next_start + min_int(column, next_end - next_start)
            }
        },
    }
}

/// Where a motion other than `Absolute` leads from `cursor`.
pub open spec fn motion_position(units: Seq<TextUnit>, cursor: int, motion: Motion) -> int {
    match motion {
        Motion::Character(Direction::Previous) => if cursor > 0 {
            cursor - 1
        } else {
            0
        },
        Motion::Character(Direction::Next) => min_int(cursor + 1, units.len() as int),
        Motion::Word { direction, kind } => word_boundary(units, cursor, direction, kind),
        Motion::Line(direction) => adjacent_line(units, cursor, direction),
        Motion::StartOfLine => line_start(units, cursor),
        Motion::EndOfLine => line_end(units, cursor),
        Motion::StartOfBuffer => 0,
        Motion::EndOfBuffer => units.len() as int,
        Motion::Absolute(index) => index@ as int,
    }
}

/// The result of `destination`: the checked boundary a motion leads to.
pub open spec fn destination_result(units: Seq<TextUnit>, cursor: nat, motion: Motion) -> Result<nat, Error> {
    if cursor > units.len() {
        Err(Error::TextIndexOutOfBounds { index: cursor as usize, len: units.len() as usize })
    } else {
        let position = motion_position(units, cursor as int, motion);
        if position <= units.len() {
            Ok(position as nat)
        } else {
            Err(Error::TextIndexOutOfBounds { index: position as usize, len: units.len() as usize })
        }
    }
}

pub proof fn lemma_skip_forward_bounds(units: Seq<TextUnit>, pos: int, kind: WordKind, class: WordClass)
    requires
        0 <= pos <= units.len(),
    ensures
        pos <= skip_forward(units, pos, kind, class) <= units.len(),
        forall|i: int| pos <= i < skip_forward(units, pos, kind, class) ==> class_of(#[trigger] units[i], kind) == class,
    decreases units.len() - pos,
{
    if 0 <= pos < units.len() && class_of(units[pos], kind) == class {
        lemma_skip_forward_bounds(units, pos + 1, kind, class);
    }
}

pub proof fn lemma_skip_backward_bounds(units: Seq<TextUnit>, pos: int, kind: WordKind, class: WordClass)
    requires
        0 <= pos <= units.len(),
    ensures
        0 <= skip_backward(units, pos, kind, class) <= pos,
    decreases pos,
{
    if 0 < pos <= units.len() && class_of(units[pos - 1], kind) == class {
        lemma_skip_backward_bounds(units, pos - 1, kind, class);
    }
}

/// Skipping backward over a class stops after a run of that class, at the
/// start of the text or just after a unit of another class.
pub proof fn lemma_skip_backward_run(units: Seq<TextUnit>, pos: int, kind: WordKind, class: WordClass)
    requires
        0 <= pos <= units.len(),
    ensures
        0 <= skip_backward(units, pos, kind, class) <= pos,
        forall|i: int|
            skip_backward(units, pos, kind, class) <= i < pos ==> class_of(#[trigger] units[i], kind) == class,
        skip_backward(units, pos, kind, class) == 0 || class_of(
            units[skip_backward(units, pos, kind, class) - 1],
            kind,
        ) != class,
    decreases pos,
{
    if 0 < pos <= units.len() && class_of(units[pos - 1], kind) == class {
        lemma_skip_backward_run(units, pos - 1, kind, class);
    }
}

/// Every unit in `[from, to)` is a blank.
pub open spec fn blanks_between(units: Seq<TextUnit>, from: int, to: int) -> bool {
    forall|i: int| from <= i < to ==> unit_is_space(#[trigger] units[i])
}

/// A backward word motion lands on the start of the nearest word before
/// `pos`: when only blanks precede `pos` it goes to the start of the text;
/// otherwise the result is a non-blank unit that begins a run of its class
/// (at the start of the text or after a unit of another class), and
/// between that run and `pos` lie only blanks.
pub proof fn law_backward_word_lands_on_word_start(units: Seq<TextUnit>, pos: int, kind: WordKind)
    requires
        0 <= pos <= units.len(),
    ensures
        0 <= previous_word(units, pos, kind) <= pos,
        (forall|i: int| 0 <= i < pos ==> unit_is_space(#[trigger] units[i])) ==> previous_word(units, pos, kind)
            == 0,
        (exists|i: int| 0 <= i < pos && !unit_is_space(#[trigger] units[i])) ==> {
            let r = previous_word(units, pos, kind);
            &&& r < pos
            &&& !unit_is_space(units[r])
            &&& (r == 0 || class_of(units[r - 1], kind) != class_of(units[r], kind))
            &&& exists|k: int|
                r < k <= pos && (forall|i: int| r <= i < k ==> class_of(#[trigger] units[i], kind) == class_of(units[r], kind))
                    && #[trigger] blanks_between(units, k, pos)
        },
{
    lemma_skip_backward_run(units, pos, kind, WordClass::Space);
    let p = skip_backward(units, pos, kind, WordClass::Space);
    assert forall|i: int| p <= i < pos implies unit_is_space(#[trigger] units[i]) by {
        assert(class_of(units[i], kind) == WordClass::Space);
    }
    if p == 0 {
        assert forall|i: int| 0 <= i < pos implies unit_is_space(#[trigger] units[i]) by {
            assert(class_of(units[i], kind) == WordClass::Space);
        }
    } else {
        let c = class_of(units[p - 1], kind);
        assert(c != WordClass::Space);
        assert(!unit_is_space(units[p - 1]));
        lemma_skip_backward_run(units, p, kind, c);
        let r = skip_backward(units, p, kind, c);
        assert(r < p) by {
            if r == p {
                assert(class_of(units[r - 1], kind) == c);
            }
        }
        assert(class_of(units[r], kind) == c);
        assert(!unit_is_space(units[r]));
        assert(r < p <= pos && (forall|i: int| r <= i < p ==> class_of(#[trigger] units[i], kind) == class_of(units[r], kind))
            && blanks_between(units, p, pos));
    }
}

pub proof fn lemma_line_start_bounds(units: Seq<TextUnit>, cursor: int)
    requires
        0 <= cursor <= units.len(),
    ensures
        0 <= line_start(units, cursor) <= cursor,
    decreases cursor,
{
    if cursor > 0 && !unit_is_newline(units[cursor - 1]) {
        lemma_line_start_bounds(units, cursor - 1);
    }
}

pub proof fn lemma_line_end_bounds(units: Seq<TextUnit>, cursor: int)
    requires
        0 <= cursor <= units.len(),
    ensures
        cursor <= line_end(units, cursor) <= units.len(),
        line_end(units, cursor) < units.len() ==> unit_is_newline(units[line_end(units, cursor)]),
    decreases units.len() - cursor,
{
    if cursor < units.len() && !unit_is_newline(units[cursor]) {
        lemma_line_end_bounds(units, cursor + 1);
    }
}

/// Every motion other than `Absolute` stays inside the text.
pub proof fn lemma_motion_in_bounds(units: Seq<TextUnit>, cursor: int, motion: Motion)
    requires
        0 <= cursor <= units.len(),
        !(motion is Absolute),
    ensures
        0 <= motion_position(units, cursor, motion) <= units.len(),
{
    match motion {
        Motion::Word { direction, kind } => {
            lemma_word_boundary_bounds(units, cursor, direction, kind);
        },
        Motion::Line(direction) => {
            lemma_adjacent_line_bounds(units, cursor, direction);
        },
        Motion::StartOfLine => {
            lemma_line_start_bounds(units, cursor);
        },
        Motion::EndOfLine => {
            lemma_line_end_bounds(units, cursor);
        },
        _ => {},
    }
}

pub proof fn lemma_word_boundary_bounds(units: Seq<TextUnit>, pos: int, direction: Direction, kind: WordKind)
    requires
        0 <= pos <= units.len(),
    ensures
        0 <= word_boundary(units, pos, direction, kind) <= units.len(),
        direction == Direction::Next ==> pos <= word_boundary(units, pos, direction, kind),
        direction == Direction::Previous ==> word_boundary(units, pos, direction, kind) <= pos,
{
    match direction {
        Direction::Next => {
            if pos < units.len() {
                let after_run = if unit_is_space(units[pos]) {
                    pos
                } else {
                    skip_forward(units, pos, kind, class_of(units[pos], kind))
                };
                if !unit_is_space(units[pos]) {
                    lemma_skip_forward_bounds(units, pos, kind, class_of(units[pos], kind));
                }
                lemma_skip_forward_bounds(units, after_run, kind, WordClass::Space);
            }
        },
        Direction::Previous => {
            lemma_skip_backward_bounds(units, pos, kind, WordClass::Space);
            let p = skip_backward(units, pos, kind, WordClass::Space);
            if p != 0 {
                lemma_skip_backward_bounds(units, p, kind, class_of(units[p - 1], kind));
            }
        },
    }
}

pub proof fn lemma_adjacent_line_bounds(units: Seq<TextUnit>, cursor: int, direction: Direction)
    requires
        0 <= cursor <= units.len(),
    ensures
        0 <= adjacent_line(units, cursor, direction) <= units.len(),
{
    lemma_line_start_bounds(units, cursor);
    let start = line_start(units, cursor);
    match direction {
        Direction::Previous => {
            if start > 0 {
                lemma_line_start_bounds(units, start - 1);
            }
        },
        Direction::Next => {
            lemma_line_end_bounds(units, cursor);
            let end = line_end(units, cursor);
            if end < units.len() {
                lemma_line_end_bounds(units, end + 1);
            }
        },
    }
}

/// Whether a unit is a whitespace scalar.
pub fn is_space(unit: TextUnit) -> (result: bool)
    ensures
        result == unit_is_space(unit),
{
    match unit {
        TextUnit::Scalar(c) => is_whitespace(c),
        _ => false,
    }
}

/// Whether a unit is an alphanumeric scalar or underscore.
pub fn is_word(unit: TextUnit) -> (result: bool)
    ensures
        result == unit_is_word(unit),
{
    match unit {
        TextUnit::Scalar(c) => is_alphanumeric(c) || c == '_',
        _ => false,
    }
}

/// Whether a unit is the newline scalar.
pub fn is_newline(unit: TextUnit) -> (result: bool)
    ensures
        result == unit_is_newline(unit),
{
    match unit {
        TextUnit::Scalar(c) => c == '\n',
        _ => false,
    }
}

/// The word class of a unit.
pub fn word_class(unit: TextUnit, kind: WordKind) -> (class: WordClass)
    ensures
        class == class_of(unit, kind),
{
    if is_space(unit) {
        WordClass::Space
    } else if kind == WordKind::BigWord || is_word(unit) {
        WordClass::Word
    } else {
        WordClass::Other
    }
}

pub fn skip_forward_exec(units: &[TextUnit], start: usize, kind: WordKind, class: WordClass) -> (pos: usize)
    requires
        start <= units@.len(),
    ensures
        pos == skip_forward(units@, start as int, kind, class),
{
    let mut pos = start;
    while pos < units.len() && word_class(units[pos], kind) == class
        invariant
            start <= pos <= units@.len(),
            skip_forward(units@, start as int, kind, class) == skip_forward(units@, pos as int, kind, class),
        decreases units@.len() - pos,
    {
        pos = pos + 1;
    }
    pos
}

fn skip_backward_exec(units: &[TextUnit], start: usize, kind: WordKind, class: WordClass) -> (pos: usize)
    requires
        start <= units@.len(),
    ensures
        pos == skip_backward(units@, start as int, kind, class),
{
    let mut pos = start;
    while pos > 0 && word_class(units[pos - 1], kind) == class
        invariant
            pos <= start <= units@.len(),
            skip_backward(units@, start as int, kind, class) == skip_backward(units@, pos as int, kind, class),
        decreases pos,
    {
        pos = pos - 1;
    }
    pos
}

/// The start of the next word after `position`.
pub fn next_word_exec(units: &[TextUnit], position: usize, kind: WordKind) -> (pos: usize)
    ensures
        pos == next_word(units@, position as int, kind),
{
    if position >= units.len() {
        return units.len();
    }
    let mut pos = position;
    if !is_space(units[pos]) {
        let class = word_class(units[pos], kind);
        pos = skip_forward_exec(units, pos, kind, class);
    }
    proof {
        if !unit_is_space(units@[position as int]) {
            lemma_skip_forward_bounds(units@, position as int, kind, class_of(units@[position as int], kind));
        }
    }
    skip_forward_exec(units, pos, kind, WordClass::Space)
}

/// The start of the word before `position`.
pub fn previous_word_exec(units: &[TextUnit], position: usize, kind: WordKind) -> (pos: usize)
    requires
        position <= units@.len(),
    ensures
        pos == previous_word(units@, position as int, kind),
{
    let p = skip_backward_exec(units, position, kind, WordClass::Space);
    proof {
        lemma_skip_backward_bounds(units@, position as int, kind, WordClass::Space);
    }
    if p == 0 {
        return 0;
    }
    let class = word_class(units[p - 1], kind);
    skip_backward_exec(units, p, kind, class)
}

fn word_boundary_exec(units: &[TextUnit], cursor: usize, direction: Direction, kind: WordKind) -> (pos: usize)
    requires
        cursor <= units@.len(),
    ensures
        pos == word_boundary(units@, cursor as int, direction, kind),
{
    match direction {
        Direction::Previous => previous_word_exec(units, cursor, kind),
        Direction::Next => next_word_exec(units, cursor, kind),
    }
}

/// The start of the embedded line holding `cursor`.
pub fn line_start_exec(units: &[TextUnit], cursor: usize) -> (pos: usize)
    requires
        cursor <= units@.len(),
    ensures
        pos == line_start(units@, cursor as int),
{
    let mut pos = cursor;
    while pos > 0 && !is_newline(units[pos - 1])
        invariant
            pos <= cursor <= units@.len(),
            line_start(units@, cursor as int) == line_start(units@, pos as int),
        decreases pos,
    {
        pos = pos - 1;
    }
    pos
}

/// The end of the embedded line holding `cursor`.
pub fn line_end_exec(units: &[TextUnit], cursor: usize) -> (pos: usize)
    requires
        cursor <= units@.len(),
    ensures
        pos == line_end(units@, cursor as int),
{
    let mut pos = cursor;
    while pos < units.len() && !is_newline(units[pos])
        invariant
            cursor <= pos <= units@.len(),
            line_end(units@, cursor as int) == line_end(units@, pos as int),
        decreases units@.len() - pos,
    {
        pos = pos + 1;
    }
    pos
}

fn adjacent_line_exec(units: &[TextUnit], cursor: usize, direction: Direction) -> (pos: usize)
    requires
        cursor <= units@.len(),
    ensures
        pos == adjacent_line(units@, cursor as int, direction),
{
    let start = line_start_exec(units, cursor);
    proof {
        lemma_line_start_bounds(units@, cursor as int);
    }
    let column = cursor - start;
    match direction {
        Direction::Previous => {
            if start > 0 {
                let previous_end = start - 1;
                let previous_start = line_start_exec(units, previous_end);
                proof {
                    lemma_line_start_bounds(units@, previous_end as int);
                }
                let span = previous_end - previous_start;
                previous_start + if column <= span {
                    column
                } else {
                    span
                }
            } else {
                cursor
            }
        },
        Direction::Next => {
            let end = line_end_exec(units, cursor);
            proof {
                lemma_line_end_bounds(units@, cursor as int);
            }
            if end == units.len() {
                cursor
            } else {
                let next_start = end + 1;
                let next_end = line_end_exec(units, next_start);
                proof {
                    lemma_line_end_bounds(units@, next_start as int);
                }
                let span = next_end - next_start;
                next_start + if column <= span {
                    column
                } else {
                    span
                }
            }
        },
    }
}

/// Where `motion` leads from `cursor`, checked against `line`.
pub fn destination(line: &Text, cursor: TextIndex, motion: Motion) -> (result: Result<TextIndex, Error>)
    ensures
        match destination_result(line@, cursor@, motion) {
            Ok(position) => result matches Ok(index) && index@ == position,
            Err(error) => result == Err::<TextIndex, Error>(error),
        },
        result matches Ok(index) ==> index@ <= line@.len(),
{
    line.index(cursor.get())?;
    let units = line.as_units();
    let c = cursor.get();
    proof {
        if !(motion is Absolute) {
            lemma_motion_in_bounds(line@, c as int, motion);
        }
    }
    let position = match motion {
        Motion::Character(Direction::Previous) => if c > 0 {
            c - 1
        } else {
            0
        },
        Motion::Character(Direction::Next) => if c < units.len() {
            c + 1
        } else {
            units.len()
        },
        Motion::Word { direction, kind } => word_boundary_exec(units, c, direction, kind),
        Motion::Line(direction) => adjacent_line_exec(units, c, direction),
        Motion::StartOfLine => line_start_exec(units, c),
        Motion::EndOfLine => line_end_exec(units, c),
        Motion::StartOfBuffer => 0,
        Motion::EndOfBuffer => units.len(),
        Motion::Absolute(index) => index.get(),
    };
    line.index(position)
}

/// The destination of `count` repetitions of a motion, stopping early once
/// the motion no longer moves.
pub open spec fn repeated_position(units: Seq<TextUnit>, cursor: nat, motion: Motion, count: nat) -> Result<nat, Error>
    decreases count,
{
    if count == 0 {
        Ok(cursor)
    } else {
        match destination_result(units, cursor, motion) {
            Err(e) => Err(e),
            Ok(next) => if next == cursor {
                Ok(cursor)
            } else {
                repeated_position(units, next, motion, (count - 1) as nat)
            },
        }
    }
}

/// Apply a motion up to `count` times.
pub fn repeated_destination(line: &Text, cursor: TextIndex, motion: Motion, count: usize) -> (result: Result<TextIndex, Error>)
    ensures
        match repeated_position(line@, cursor@, motion, count as nat) {
            Ok(position) => result matches Ok(index) && index@ == position,
            Err(error) => result == Err::<TextIndex, Error>(error),
        },
{
    let mut current = cursor;
    let mut remaining = count;
    while remaining > 0
        invariant
            remaining <= count,
            repeated_position(line@, cursor@, motion, count as nat) == repeated_position(line@, current@, motion, remaining as nat),
        decreases remaining,
    {
        let next = destination(line, current, motion)?;
        if next.get() == current.get() {
            return Ok(current);
        }
        current = next;
        remaining = remaining - 1;
    }
    Ok(current)
}

/// The ordered range between two boundaries.
pub open spec fn ordered(first: int, second: int) -> (int, int) {
    if first <= second {
        (first, second)
    } else {
        (second, first)
    }
}

/// The range an edit target names, before it is checked against the text.
pub open spec fn target_range(units: Seq<TextUnit>, cursor: nat, mark: Option<nat>, target: EditTarget) -> Result<(int, int), Error> {
    let c = cursor as int;
    match target {
        EditTarget::Character(Direction::Previous) => Ok((if c > 0 { c - 1 } else { 0 }, c)),
        EditTarget::Character(Direction::Next) => Ok((c, min_int(c + 1, units.len() as int))),
        EditTarget::Word { direction, kind } => Ok(ordered(c, word_boundary(units, c, direction, kind))),
        EditTarget::Motion(motion) => match destination_result(units, cursor, motion) {
            Ok(d) => Ok(ordered(c, d as int)),
            Err(e) => Err(e),
        },
        EditTarget::Line => Ok((line_start(units, c), line_end(units, c))),
        EditTarget::Buffer => Ok((0, units.len() as int)),
        EditTarget::Span(span) => Ok((span@.0 as int, span@.1 as int)),
        EditTarget::MarkedRegion => match mark {
            None => Err(Error::MarkNotSet),
            Some(m) => if m > units.len() {
                Err(Error::TextIndexOutOfBounds { index: m as usize, len: units.len() as usize })
            } else {
                Ok(ordered(c, m as int))
            },
        },
    }
}

/// The checked span an edit target resolves to.
pub open spec fn target_result(units: Seq<TextUnit>, cursor: nat, mark: Option<nat>, target: EditTarget) -> Result<(nat, nat), Error> {
    if cursor > units.len() {
        Err(Error::TextIndexOutOfBounds { index: cursor as usize, len: units.len() as usize })
    } else {
        match target_range(units, cursor, mark, target) {
            Err(e) => Err(e),
            Ok((start, end)) => if 0 <= start <= end <= units.len() {
                Ok((start as nat, end as nat))
            } else {
                Err(Error::InvalidTextSpan { start: start as usize, end: end as usize, len: units.len() as usize })
            },
        }
    }
}

/// Resolve an edit target against the line, cursor and mark.
pub fn target_span(line: &Text, cursor: TextIndex, mark: Option<TextIndex>, target: EditTarget) -> (result: Result<TextSpan, Error>)
    ensures
        match target_result(line@, cursor@, match mark { Some(m) => Some(m@), None => None }, target) {
            Ok(range) => result matches Ok(span) && span@ == range,
            Err(error) => result == Err::<TextSpan, Error>(error),
        },
{
    line.index(cursor.get())?;
    let units = line.as_units();
    let c = cursor.get();
    let (start, end) = match target {
        EditTarget::Character(Direction::Previous) => (if c > 0 { c - 1 } else { 0 }, c),
        EditTarget::Character(Direction::Next) => (c, if c < units.len() { c + 1 } else { units.len() }),
        EditTarget::Word { direction, kind } => {
            let boundary = word_boundary_exec(units, c, direction, kind);
            proof {
                lemma_word_boundary_bounds(units@, c as int, direction, kind);
            }
            if c <= boundary { (c, boundary) } else { (boundary, c) }
        },
        EditTarget::Motion(motion) => {
            let d = destination(line, cursor, motion)?.get();
            if c <= d { (c, d) } else { (d, c) }
        },
        EditTarget::Line => {
            let s = line_start_exec(units, c);
            let e = line_end_exec(units, c);
            (s, e)
        },
        EditTarget::Buffer => (0, units.len()),
        EditTarget::Span(span) => (span.start().get(), span.end().get()),
        EditTarget::MarkedRegion => {
            let m = match mark {
                Some(m) => m,
                None => {
                    return Err(Error::MarkNotSet);
                },
            };
            line.index(m.get())?;
            let mv = m.get();
            if c <= mv { (c, mv) } else { (mv, c) }
        },
    };
    line.span(start, end)
}

/// Whether `needle` occurs in `units` starting at `position`.
pub open spec fn matches_at(units: Seq<TextUnit>, needle: Seq<TextUnit>, position: int) -> bool {
    0 <= position && position + needle.len() <= units.len() && units.subrange(position, position + needle.len()) == needle
}

/// The position `find_pattern` reports.
pub open spec fn search_result(
    units: Seq<TextUnit>,
    needle: Seq<TextUnit>,
    cursor: int,
    direction: Direction,
    include_cursor: bool,
    found: Option<usize>,
) -> bool {
    if needle.len() == 0 || needle.len() > units.len() {
        found is None
    } else {
        match direction {
            Direction::Next => {
                let first = if include_cursor { cursor } else { cursor + 1 };
                match found {
                    Some(p) => first <= p && matches_at(units, needle, p as int) && forall|q: int|
                        first <= q < p ==> !#[trigger] matches_at(units, needle, q),
                    None => forall|q: int| first <= q ==> !#[trigger] matches_at(units, needle, q),
                }
            },
            Direction::Previous => {
                let bound = if include_cursor { cursor } else { cursor - 1 };
                match found {
                    Some(p) => p <= bound && matches_at(units, needle, p as int) && forall|q: int|
                        p < q <= bound ==> !#[trigger] matches_at(units, needle, q),
                    None => forall|q: int| q <= bound ==> !#[trigger] matches_at(units, needle, q),
                }
            },
        }
    }
}

/// The nearest exact occurrence of `pattern` from the cursor in a direction.
pub fn find_pattern(line: &Text, pattern: &Text, cursor: TextIndex, direction: Direction, include_cursor: bool) -> (found: Option<usize>)
    ensures
        search_result(line@, pattern@, cursor@ as int, direction, include_cursor, found),
{
    let units = line.as_units();
    let needle = pattern.as_units();
    if needle.len() == 0 || needle.len() > units.len() {
        return None;
    }
    let last = units.len() - needle.len();
    proof {
        assert(units@.len() <= usize::MAX);
    }
    match direction {
        Direction::Next => {
            let c = cursor.get();
            if !include_cursor && c == usize::MAX {
                return None;
            }
            let first = if include_cursor { c } else { c + 1 };
            let mut position = first;
            while position <= last
                invariant
                    first <= position,
                    direction == Direction::Next,
                    first == (if include_cursor { cursor@ } else { cursor@ + 1 }),
                    0 < needle@.len() <= units@.len(),
                    units@ == line@,
                    needle@ == pattern@,
                    last < usize::MAX,
                    last == units@.len() - needle@.len(),
                    forall|q: int| first <= q < position ==> !#[trigger] matches_at(line@, pattern@, q),
                decreases last + 1 - position,
            {
                if units_match_at(units, needle, position) {
                    return Some(position);
                }
                position = position + 1;
            }
            None
        },
        Direction::Previous => {
            let c = cursor.get();
            if !include_cursor && c == 0 {
                return None;
            }
            let bound = if include_cursor { c } else { c - 1 };
            let top = if bound < last { bound } else { last };
            let mut position = top;
            loop
                invariant
                    position <= top,
                    direction == Direction::Previous,
                    top <= bound,
                    bound == (if include_cursor { cursor@ as int } else { cursor@ - 1 }),
                    0 < needle@.len() <= units@.len(),
                    units@ == line@,
                    needle@ == pattern@,
                    top <= last,
                    last == units@.len() - needle@.len(),
                    forall|q: int| position < q <= bound ==> !#[trigger] matches_at(line@, pattern@, q),
                decreases position,
            {
                if units_match_at(units, needle, position) {
                    return Some(position);
                }
                if position == 0 {
                    return None;
                }
                position = position - 1;
            }
        },
    }
}

/// Whether `needle` occurs in `units` at `position`.
fn units_match_at(units: &[TextUnit], needle: &[TextUnit], position: usize) -> (result: bool)
    requires
        position + needle@.len() <= units@.len(),
    ensures
        result == matches_at(units@, needle@, position as int),
{
    let total = units.len();
    let mut i: usize = 0;
    while i < needle.len()
        invariant
            total == units@.len(),
            position + needle@.len() <= units@.len(),
            i <= needle@.len(),
            forall|j: int| 0 <= j < i ==> units@[position + j] == needle@[j],
        decreases needle@.len() - i,
    {
        if units[position + i] != needle[i] {
            proof {
                assert(units@.subrange(position as int, position + needle@.len())[i as int] != needle@[i as int]);
            }
            return false;
        }
        i = i + 1;
    }
    assert(units@.subrange(position as int, position + needle@.len()) =~= needle@);
    true
}

} // verus!
