//! Positions and spans that keyboard command sequences compute from the
//! line: matching brackets, word ends, character searches and operator
//! ranges, and how actions are classified for repetition and replay.

use super::motion::{class_of, lemma_skip_forward_bounds, skip_forward, skip_forward_exec, WordClass};
use crate::domain::{
    Action, CharacterSearch, CharacterSearchLanding, Direction, EditTarget, Error, Text, TextIndex,
    TextSpan, TextUnit, WordKind,
};
use vstd::prelude::*;

verus! {

/// The bracket pair a unit belongs to and the way its partner lies.
pub open spec fn delimiter_spec(unit: TextUnit) -> Option<(TextUnit, TextUnit, Direction)> {
    if unit == TextUnit::Scalar('(') {
        Some((TextUnit::Scalar('('), TextUnit::Scalar(')'), Direction::Next))
    } else if unit == TextUnit::Scalar(')') {
        Some((TextUnit::Scalar('('), TextUnit::Scalar(')'), Direction::Previous))
    } else if unit == TextUnit::Scalar('[') {
        Some((TextUnit::Scalar('['), TextUnit::Scalar(']'), Direction::Next))
    } else if unit == TextUnit::Scalar(']') {
        Some((TextUnit::Scalar('['), TextUnit::Scalar(']'), Direction::Previous))
    } else if unit == TextUnit::Scalar('{') {
        Some((TextUnit::Scalar('{'), TextUnit::Scalar('}'), Direction::Next))
    } else if unit == TextUnit::Scalar('}') {
        Some((TextUnit::Scalar('{'), TextUnit::Scalar('}'), Direction::Previous))
    } else {
        None
    }
}

/// The bracket pair a unit belongs to and the way its partner lies.
pub fn delimiter(unit: TextUnit) -> (pair: Option<(TextUnit, TextUnit, Direction)>)
    ensures
        pair == delimiter_spec(unit),
{
    let c = match unit {
        TextUnit::Scalar(c) => c,
        _ => {
            return None;
        },
    };
    if c == '(' {
        Some((TextUnit::scalar('('), TextUnit::scalar(')'), Direction::Next))
    } else if c == ')' {
        Some((TextUnit::scalar('('), TextUnit::scalar(')'), Direction::Previous))
    } else if c == '[' {
        Some((TextUnit::scalar('['), TextUnit::scalar(']'), Direction::Next))
    } else if c == ']' {
        Some((TextUnit::scalar('['), TextUnit::scalar(']'), Direction::Previous))
    } else if c == '{' {
        Some((TextUnit::scalar('{'), TextUnit::scalar('}'), Direction::Next))
    } else if c == '}' {
        Some((TextUnit::scalar('{'), TextUnit::scalar('}'), Direction::Previous))
    } else {
        None
    }
}

/// Openings minus closings in `units[lo..hi)`.
pub open spec fn nest(units: Seq<TextUnit>, opening: TextUnit, closing: TextUnit, lo: int, hi: int) -> int
    decreases hi - lo,
{
    if lo >= hi {
        0
    } else {
        (if units[lo] == opening {
            1int
        } else if units[lo] == closing {
            -1int
        } else {
            0int
        }) + nest(units, opening, closing, lo + 1, hi)
    }
}

proof fn lemma_nest_extend(units: Seq<TextUnit>, opening: TextUnit, closing: TextUnit, lo: int, hi: int)
    requires
        lo <= hi,
    ensures
        nest(units, opening, closing, lo, hi + 1) == nest(units, opening, closing, lo, hi) + (if units[hi]
            == opening {
            1int
        } else if units[hi] == closing {
            -1int
        } else {
            0int
        }),
    decreases hi - lo,
{
    if lo < hi {
        lemma_nest_extend(units, opening, closing, lo + 1, hi);
    } else {
        reveal_with_fuel(nest, 2);
    }
}

proof fn lemma_nest_bounds(units: Seq<TextUnit>, opening: TextUnit, closing: TextUnit, lo: int, hi: int)
    requires
        lo <= hi,
    ensures
        -(hi - lo) <= nest(units, opening, closing, lo, hi) <= hi - lo,
    decreases hi - lo,
{
    if lo < hi {
        lemma_nest_bounds(units, opening, closing, lo + 1, hi);
    }
}

/// `origin` is the first bracket at or after `from`.
pub open spec fn first_delimiter(units: Seq<TextUnit>, from: int, origin: int) -> bool {
    &&& from <= origin < units.len()
    &&& delimiter_spec(units[origin]) is Some
    &&& forall|q: int| from <= q < origin ==> delimiter_spec(#[trigger] units[q]) is None
}

/// `p` closes the bracket opened at `origin`: the first closing after it
/// that leaves nothing open between.
pub open spec fn forward_match(units: Seq<TextUnit>, opening: TextUnit, closing: TextUnit, origin: int, p: int) -> bool {
    &&& origin < p < units.len()
    &&& units[p] == closing
    &&& nest(units, opening, closing, origin + 1, p) == 0
    &&& forall|q: int| origin < q < p ==> !(#[trigger] units[q] == closing && nest(units, opening, closing, origin + 1, q) == 0)
}

/// `p` opens the bracket closed at `origin`: the last opening before it
/// that leaves nothing open between.
pub open spec fn backward_match(units: Seq<TextUnit>, opening: TextUnit, closing: TextUnit, origin: int, p: int) -> bool {
    &&& 0 <= p < origin
    &&& units[p] == opening
    &&& nest(units, opening, closing, p + 1, origin) == 0
    &&& forall|q: int| p < q < origin ==> !(#[trigger] units[q] == opening && nest(units, opening, closing, q + 1, origin) == 0)
}

/// Whether `p`, found in direction `direction`, partners the bracket at `origin`.
pub open spec fn partner(units: Seq<TextUnit>, origin: int, p: int, direction: Direction) -> bool {
    match delimiter_spec(units[origin]) {
        Some((opening, closing, d)) => d == direction && match d {
            Direction::Next => forward_match(units, opening, closing, origin, p),
            Direction::Previous => backward_match(units, opening, closing, origin, p),
        },
        None => false,
    }
}

/// The partner of the first bracket at or after the cursor, and the way it
/// lies; `None` when there is no bracket there or it is unbalanced.
pub fn matching_delimiter(line: &Text, cursor: TextIndex) -> (found: Option<(TextIndex, Direction)>)
    ensures
        match found {
            Some((index, direction)) => exists|origin: int| #[trigger] first_delimiter(line@, cursor@ as int, origin)
                && partner(line@, origin, index@ as int, direction),
            None => forall|origin: int, p: int, d: Direction| first_delimiter(line@, cursor@ as int, origin) ==> !#[trigger] partner(
                line@,
                origin,
                p,
                d,
            ),
        },
{
    let units = line.as_units();
    let mut origin = cursor.get();
    while origin < units.len() && delimiter(units[origin]).is_none()
        invariant
            cursor@ <= origin,
            units@ == line@,
            forall|q: int| cursor@ <= q < origin ==> delimiter_spec(#[trigger] units@[q]) is None,
        decreases units@.len() - origin,
    {
        origin = origin + 1;
    }
    if origin >= units.len() {
        proof {
            assert forall|o: int, p: int, d: Direction| first_delimiter(line@, cursor@ as int, o) implies !#[trigger] partner(line@, o, p, d) by {
                assert(delimiter_spec(units@[o]) is None);
            }
        }
        return None;
    }
    let (opening, closing, direction) = match delimiter(units[origin]) {
        Some(pair) => pair,
        None => {
            return None;
        },
    };
    proof {
        assert(first_delimiter(line@, cursor@ as int, origin as int));
        assert forall|o: int| #[trigger] first_delimiter(line@, cursor@ as int, o) implies o == origin by {
            if o < origin {
                assert(delimiter_spec(units@[o]) is None);
            }
            if o > origin {
                assert(delimiter_spec(units@[origin as int]) is None);
            }
        }
    }
    let ghost u = line@;
    let total = units.len();
    match direction {
        Direction::Next => {
            let mut depth: usize = 1;
            let mut position = origin + 1;
            while position < units.len()
                invariant
                    origin < position <= units@.len(),
                    units@ == u,
                    u == line@,
                    total == units@.len(),
                    first_delimiter(u, cursor@ as int, origin as int),
                    delimiter_spec(u[origin as int]) == Some((opening, closing, direction)),
                    direction == Direction::Next,
                    opening != closing,
                    depth as int == 1 + nest(u, opening, closing, origin + 1, position as int),
                    depth >= 1,
                    forall|q: int| origin < q < position ==> !(#[trigger] u[q] == closing && nest(u, opening, closing, origin + 1, q) == 0),
                decreases units@.len() - position,
            {
                proof {
                    lemma_nest_extend(u, opening, closing, origin + 1, position as int);
                    lemma_nest_bounds(u, opening, closing, origin + 1, position as int);
                }
                let unit = units[position];
                if unit == opening {
                    depth = depth + 1;
                } else if unit == closing {
                    depth = depth - 1;
                    if depth == 0 {
                        proof {
                            assert(forward_match(u, opening, closing, origin as int, position as int));
                            assert(partner(u, origin as int, position as int, direction));
                        }
                        return Some((line.index_within(position), direction));
                    }
                }
                position = position + 1;
            }
            proof {
                assert forall|o: int, p: int, d: Direction| first_delimiter(line@, cursor@ as int, o) implies !#[trigger] partner(line@, o, p, d) by {
                    assert(o == origin);
                    if forward_match(u, opening, closing, o, p) {
                        assert(!(u[p] == closing && nest(u, opening, closing, origin + 1, p) == 0));
                    }
                }
            }
            None
        },
        Direction::Previous => {
            let mut depth: usize = 1;
            let mut position = origin;
            while position > 0
                invariant
                    0 <= position <= origin,
                    origin < units@.len(),
                    units@ == u,
                    u == line@,
                    total == units@.len(),
                    first_delimiter(u, cursor@ as int, origin as int),
                    delimiter_spec(u[origin as int]) == Some((opening, closing, direction)),
                    direction == Direction::Previous,
                    opening != closing,
                    depth as int == 1 - nest(u, opening, closing, position as int, origin as int),
                    depth >= 1,
                    forall|q: int| position <= q < origin ==> !(#[trigger] u[q] == opening && nest(u, opening, closing, q + 1, origin as int) == 0),
                decreases position,
            {
                let p = position - 1;
                proof {
                    lemma_nest_bounds(u, opening, closing, position as int, origin as int);
                }
                let unit = units[p];
                if unit == closing {
                    depth = depth + 1;
                } else if unit == opening {
                    depth = depth - 1;
                    if depth == 0 {
                        proof {
                            assert(backward_match(u, opening, closing, origin as int, p as int));
                            assert(partner(u, origin as int, p as int, direction));
                        }
                        return Some((line.index_within(p), direction));
                    }
                }
                position = p;
            }
            proof {
                assert forall|o: int, p: int, d: Direction| first_delimiter(line@, cursor@ as int, o) implies !#[trigger] partner(line@, o, p, d) by {
                    assert(o == origin);
                    if backward_match(u, opening, closing, o, p) {
                        assert(!(u[p] == opening && nest(u, opening, closing, p + 1, origin as int) == 0));
                    }
                }
            }
            None
        },
    }
}

/// One step of an end-of-word motion from `pos`: past the blanks after
/// `pos + 1`, then to the last unit of the run found there. `None` when the
/// blanks run to the end of the line.
pub open spec fn end_step(units: Seq<TextUnit>, pos: int, kind: WordKind) -> Option<int> {
    let p = skip_forward(units, pos + 1, kind, WordClass::Space);
    if p >= units.len() {
        None
    } else {
        Some(skip_forward(units, p, kind, class_of(units[p], kind)) - 1)
    }
}

/// Where `count` end-of-word steps lead; running off the end stops on the
/// last unit.
pub open spec fn word_end_position(units: Seq<TextUnit>, pos: int, kind: WordKind, count: nat) -> int
    decreases count,
{
    if count == 0 {
        pos
    } else {
        match end_step(units, pos, kind) {
            None => units.len() - 1,
            Some(q) => word_end_position(units, q, kind, (count - 1) as nat),
        }
    }
}

proof fn lemma_end_step_bounds(units: Seq<TextUnit>, pos: int, kind: WordKind)
    requires
        0 <= pos < units.len(),
    ensures
        end_step(units, pos, kind) matches Some(q) ==> pos <= q < units.len(),
{
    lemma_skip_forward_bounds(units, pos + 1, kind, WordClass::Space);
    let p = skip_forward(units, pos + 1, kind, WordClass::Space);
    if p < units.len() {
        lemma_skip_forward_bounds(units, p, kind, class_of(units[p], kind));
        reveal_with_fuel(skip_forward, 2);
    }
}

/// The last unit of the `count`-th word ending after the cursor; the cursor
/// itself for a count of zero; `None` when the cursor is at the end.
pub fn word_end(line: &Text, cursor: TextIndex, kind: WordKind, count: usize) -> (end: Option<TextIndex>)
    ensures
        cursor@ >= line@.len() ==> end is None,
        cursor@ < line@.len() ==> (end matches Some(index) && index@ == word_end_position(
            line@,
            cursor@ as int,
            kind,
            count as nat,
        )),
{
    let units = line.as_units();
    let c = cursor.get();
    if c >= units.len() {
        return None;
    }
    if count == 0 {
        return Some(cursor);
    }
    let mut position = c;
    let mut remaining = count;
    let total = units.len();
    while remaining > 0
        invariant
            position < units@.len(),
            total == units@.len(),
            c == cursor@,
            c < units@.len(),
            units@ == line@,
            remaining <= count,
            word_end_position(line@, c as int, kind, count as nat) == word_end_position(
                line@,
                position as int,
                kind,
                remaining as nat,
            ),
        decreases remaining,
    {
        proof {
            lemma_end_step_bounds(units@, position as int, kind);
        }
        let p = skip_forward_exec(units, position + 1, kind, WordClass::Space);
        if p >= units.len() {
            return Some(line.index_within(units.len() - 1));
        }
        let class = super::motion::word_class(units[p], kind);
        let after = skip_forward_exec(units, p, kind, class);
        proof {
            lemma_skip_forward_bounds(units@, p as int, kind, class);
            reveal_with_fuel(skip_forward, 2);
        }
        position = after - 1;
        remaining = remaining - 1;
    }
    Some(line.index_within(position))
}

/// The first position at or after `from` holding `target`.
pub open spec fn next_occurrence(units: Seq<TextUnit>, from: int, target: TextUnit) -> Option<int>
    decreases units.len() - from,
{
    if from < 0 || from >= units.len() {
        None
    } else if units[from] == target {
        Some(from)
    } else {
        next_occurrence(units, from + 1, target)
    }
}

/// The last position before `before` holding `target`.
pub open spec fn previous_occurrence(units: Seq<TextUnit>, before: int, target: TextUnit) -> Option<int>
    decreases before,
{
    if before <= 0 || before > units.len() {
        None
    } else if units[before - 1] == target {
        Some(before - 1)
    } else {
        previous_occurrence(units, before - 1, target)
    }
}

/// Where `count` searches for `target` from `pos` lead, `None` when one of
/// them finds nothing.
pub open spec fn occurrence_after(units: Seq<TextUnit>, pos: int, direction: Direction, target: TextUnit, count: nat) -> Option<int>
    decreases count,
{
    if count == 0 {
        Some(pos)
    } else {
        let next = match direction {
            Direction::Next => if pos + 1 > units.len() { None } else { next_occurrence(units, pos + 1, target) },
            Direction::Previous => if pos > units.len() { None } else { previous_occurrence(units, pos, target) },
        };
        match next {
            None => None,
            Some(q) => occurrence_after(units, q, direction, target, (count - 1) as nat),
        }
    }
}

/// Where a character search lands: on the target or beside it, on the
/// side it was approached from.
pub open spec fn landing_position(units: Seq<TextUnit>, position: int, search: CharacterSearch) -> int {
    match (search.direction, search.landing) {
        (Direction::Next, CharacterSearchLanding::BeforeTarget) => if position > 0 { position - 1 } else { 0 },
        (Direction::Previous, CharacterSearchLanding::BeforeTarget) => min_int(position + 1, units.len() as int),
        (_, CharacterSearchLanding::OnTarget) => position,
    }
}

pub open spec fn min_int(a: int, b: int) -> int {
    if a <= b { a } else { b }
}

fn next_occurrence_exec(units: &[TextUnit], from: usize, target: TextUnit) -> (found: Option<usize>)
    ensures
        match next_occurrence(units@, from as int, target) {
            Some(q) => found == Some(q as usize) && from <= q < units@.len(),
            None => found is None,
        },
{
    let mut q = from;
    while q < units.len()
        invariant
            from <= q,
            next_occurrence(units@, from as int, target) == next_occurrence(units@, q as int, target),
        decreases units@.len() - q,
    {
        if units[q] == target {
            return Some(q);
        }
        q = q + 1;
    }
    None
}

fn previous_occurrence_exec(units: &[TextUnit], before: usize, target: TextUnit) -> (found: Option<usize>)
    requires
        before <= units@.len(),
    ensures
        match previous_occurrence(units@, before as int, target) {
            Some(q) => found == Some(q as usize) && 0 <= q < before,
            None => found is None,
        },
{
    let mut q = before;
    while q > 0
        invariant
            q <= before <= units@.len(),
            previous_occurrence(units@, before as int, target) == previous_occurrence(units@, q as int, target),
        decreases q,
    {
        if units[q - 1] == target {
            return Some(q - 1);
        }
        q = q - 1;
    }
    None
}

/// Where a repeated character search lands, when every repetition finds
/// the target and the landing is within the line.
pub fn character_destination(
    line: &Text,
    cursor: TextIndex,
    search: CharacterSearch,
    target: TextUnit,
    count: usize,
) -> (destination: Option<TextIndex>)
    ensures
        match occurrence_after(line@, cursor@ as int, search.direction, target, count as nat) {
            None => destination is None,
            Some(p) => {
                let landing = landing_position(line@, p, search);
                if 0 <= landing <= line@.len() {
                    destination matches Some(index) && index@ == landing
                } else {
                    destination is None
                }
            },
        },
{
    let units = line.as_units();
    let mut position = cursor.get();
    let mut remaining = count;
    let total = units.len();
    while remaining > 0
        invariant
            total == units@.len(),
            units@ == line@,
            remaining <= count,
            occurrence_after(line@, cursor@ as int, search.direction, target, count as nat) == occurrence_after(
                line@,
                position as int,
                search.direction,
                target,
                remaining as nat,
            ),
        decreases remaining,
    {
        let ghost before = position as int;
        let next = match search.direction() {
            Direction::Next => if position >= units.len() {
                None
            } else {
                next_occurrence_exec(units, position + 1, target)
            },
            Direction::Previous => if position > units.len() {
                None
            } else {
                previous_occurrence_exec(units, position, target)
            },
        };
        position = match next {
            Some(q) => q,
            None => {
                return None;
            },
        };
        proof {
            let spec_next = match search.direction {
                Direction::Next => if before + 1 > line@.len() { None } else { next_occurrence(line@, before + 1, target) },
                Direction::Previous => if before > line@.len() { None } else { previous_occurrence(line@, before, target) },
            };
            assert(spec_next == Some(position as int));
            assert(occurrence_after(line@, before, search.direction, target, remaining as nat) == occurrence_after(
                line@,
                position as int,
                search.direction,
                target,
                (remaining - 1) as nat,
            ));
        }
        remaining = remaining - 1;
    }
    let landing = match (search.direction(), search.landing()) {
        (Direction::Next, CharacterSearchLanding::BeforeTarget) => if position > 0 {
            position - 1
        } else {
            0
        },
        (Direction::Previous, CharacterSearchLanding::BeforeTarget) => if position < units.len() {
            position + 1
        } else {
            units.len()
        },
        (_, CharacterSearchLanding::OnTarget) => position,
    };
    match line.index(landing) {
        Ok(index) => Some(index),
        Err(_) => None,
    }
}

/// The span an operator covers between an anchor and a destination: the
/// destination's own unit too when asked, and at least one unit when the
/// two coincide inside the line.
pub open spec fn operator_range(len: nat, anchor: nat, destination: nat, include_destination: bool) -> (nat, nat) {
    let start = if anchor <= destination { anchor } else { destination };
    let end0 = if anchor <= destination { destination } else { anchor };
    let end1 = if include_destination && end0 < len { end0 + 1 } else { end0 };
    let end = if start == end1 && start < len { end1 + 1 } else { end1 };
    (start, end as nat)
}

/// The span an operator covers, with both boundaries checked against the
/// line.
pub fn operator_span(line: &Text, anchor: TextIndex, destination: TextIndex, include_destination: bool) -> (result: Result<TextSpan, Error>)
    ensures
        anchor@ > line@.len() ==> result == Err::<TextSpan, Error>(
            Error::TextIndexOutOfBounds { index: anchor@ as usize, len: line@.len() as usize },
        ),
        anchor@ <= line@.len() && destination@ > line@.len() ==> result == Err::<TextSpan, Error>(
            Error::TextIndexOutOfBounds { index: destination@ as usize, len: line@.len() as usize },
        ),
        anchor@ <= line@.len() && destination@ <= line@.len() ==> (result matches Ok(span) && span@ == operator_range(
            line@.len(),
            anchor@,
            destination@,
            include_destination,
        )),
{
    line.index(anchor.get())?;
    line.index(destination.get())?;
    let a = anchor.get();
    let d = destination.get();
    let start = if a <= d {
        a
    } else {
        d
    };
    let mut end = if a <= d {
        d
    } else {
        a
    };
    if include_destination && end < line.len() {
        end = end + 1;
    }
    if start == end && start < line.len() {
        end = end + 1;
    }
    line.span(start, end)
}

/// The decimal digit a unit types, reading a byte or a scalar below 256
/// through its low seven bits.
pub open spec fn decimal_digit_spec(unit: TextUnit) -> Option<usize> {
    let value: Option<u32> = match unit {
        TextUnit::Scalar(c) => if (c as u32) < 0x100 { Some(c as u32) } else { None },
        TextUnit::RawByte(b) => Some(b as u32),
        TextUnit::CompatibilityWide(_) => None,
    };
    match value {
        None => None,
        Some(v) => {
            let low = v & 0x7Fu32;
            if 0x30 <= low <= 0x39 {
                Some((low - 0x30) as usize)
            } else {
                None
            }
        },
    }
}

/// The decimal digit a unit types.
pub fn decimal_digit(unit: TextUnit) -> (digit: Option<usize>)
    ensures
        digit == decimal_digit_spec(unit),
{
    let value: u32 = match unit {
        TextUnit::Scalar(c) => {
            let v = c as u32;
            if v < 0x100 {
                v
            } else {
                return None;
            }
        },
        TextUnit::RawByte(b) => b as u32,
        TextUnit::CompatibilityWide(_) => {
            return None;
        },
    };
    let low = value & 0x7Fu32;
    if 0x30 <= low && low <= 0x39 {
        Some((low - 0x30) as usize)
    } else {
        None
    }
}

/// Actions that repeat when given a count.
pub fn action_repeats_with_count(action: &Action) -> (repeats: bool)
    ensures
        repeats == (action is Insert || action is DeleteOrEndOfInput || (action matches Action::Kill(target)
            && target is Word) || (action matches Action::Transform { target, .. } && target is Word)),
{
    match action {
        Action::Insert(_) | Action::DeleteOrEndOfInput => true,
        Action::Kill(EditTarget::Word { .. }) => true,
        Action::Transform { target: EditTarget::Word { .. }, .. } => true,
        _ => false,
    }
}

/// Actions that change the line text.
pub fn action_changes_line(action: &Action) -> (changes: bool)
    ensures
        changes == (action is Insert || action is Delete || action is DeleteOrEndOfInput || action is Kill
            || action is Yank || action is Transform || action is TransposeCharacters),
{
    match action {
        Action::Insert(_) | Action::Delete(_) | Action::DeleteOrEndOfInput | Action::Kill(_) | Action::Yank(_)
        | Action::Transform { .. } | Action::TransposeCharacters => true,
        _ => false,
    }
}

/// Actions a repeat-last-change command replays.
pub fn action_belongs_in_replay(action: &Action) -> (belongs: bool)
    ensures
        belongs == !(action is Noop || action is AcceptLine || action is EndOfInput || action is Complete
            || action is History || action is Undo || action is Redo || action is Refresh),
{
    match action {
        Action::Noop | Action::AcceptLine | Action::EndOfInput | Action::Complete | Action::History(_)
        | Action::Undo | Action::Redo | Action::Refresh(_) => false,
        _ => true,
    }
}

/// Actions after which the cursor is redrawn.
pub fn action_refreshes_cursor(action: &Action) -> (refreshes: bool)
    ensures
        refreshes == (action is Delete || action is DeleteOrEndOfInput || action is Kill || action is Yank
            || action is ExchangeMark || action is Transform || action is TransposeCharacters || action is Undo
            || action is Redo || action is Refresh),
{
    match action {
        Action::Delete(_) | Action::DeleteOrEndOfInput | Action::Kill(_) | Action::Yank(_) | Action::ExchangeMark
        | Action::Transform { .. } | Action::TransposeCharacters | Action::Undo | Action::Redo
        | Action::Refresh(_) => true,
        _ => false,
    }
}

} // verus!
