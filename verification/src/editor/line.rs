//! Private typed state and pure commands for one editable logical line.

use super::keymap::{lookup_result, Keymaps};
use super::motion::{
    destination, destination_result, find_pattern, matches_at, min_int, repeated_destination,
    repeated_position, search_result, target_result, target_span,
};
use super::transform::{transform_units, transformed};
use crate::domain::{
    Action, Binding, CommandName, Direction, EditTarget, EditingMode, EditorConfig, Error, InputMode, KeyLookup, KeySequence,
    KeymapMode, Motion, Outcome, Refresh, Text, TextIndex, TextTransform, TextUnit, YankPlacement,
};
use vstd::prelude::*;

verus! {

/// The part of the line state that undo restores.
pub ghost struct SnapshotModel {
    pub line: Seq<TextUnit>,
    pub cursor: nat,
    pub mark: Option<nat>,
    pub input_mode: InputMode,
}

/// The mathematical state of one editable line.
pub ghost struct LineModel {
    pub line: Seq<TextUnit>,
    pub cursor: nat,
    pub mark: Option<nat>,
    pub kill: Option<Seq<TextUnit>>,
    pub search: Option<Seq<TextUnit>>,
    pub input_mode: InputMode,
    pub keymap_mode: KeymapMode,
    pub undo: Seq<SnapshotModel>,
    pub redo: Seq<SnapshotModel>,
}

/// What applying an action reports, by value.
pub ghost enum OutcomeModel {
    Continue,
    Accepted(Seq<TextUnit>),
    EndOfInput,
    CursorMoved(nat),
    Refresh(Refresh),
}

/// What executing an action asks of the caller, by value.
pub ghost enum StepModel {
    Applied(OutcomeModel),
    NeedsCompletion,
    NeedsHistory(Direction),
    NeedsUserCommand(Seq<char>),
}

/// The result of executing one action against the line state.
#[derive(Debug, Clone, PartialEq, Eq)]
pub enum CommandStep {
    /// The action completed against the line state.
    Applied(Outcome),
    /// The host completion service must inspect the line.
    NeedsCompletion,
    /// The host history service must supply an adjacent entry.
    NeedsHistory(Direction),
    /// The host must execute a registered command.
    NeedsUserCommand(CommandName),
}

pub open spec fn outcome_model(outcome: Outcome) -> OutcomeModel {
    match outcome {
        Outcome::Continue => OutcomeModel::Continue,
        Outcome::Accepted(text) => OutcomeModel::Accepted(text@),
        Outcome::EndOfInput => OutcomeModel::EndOfInput,
        Outcome::CursorMoved(index) => OutcomeModel::CursorMoved(index@),
        Outcome::Refresh(refresh) => OutcomeModel::Refresh(refresh),
    }
}

pub open spec fn step_model(step: CommandStep) -> StepModel {
    match step {
        CommandStep::Applied(outcome) => StepModel::Applied(outcome_model(outcome)),
        CommandStep::NeedsCompletion => StepModel::NeedsCompletion,
        CommandStep::NeedsHistory(direction) => StepModel::NeedsHistory(direction),
        CommandStep::NeedsUserCommand(name) => StepModel::NeedsUserCommand(name@),
    }
}

pub open spec fn outcome_result_model(result: Result<Outcome, Error>) -> Result<StepModel, Error> {
    match result {
        Ok(outcome) => Ok(StepModel::Applied(outcome_model(outcome))),
        Err(error) => Err(error),
    }
}

pub open spec fn usize_option_view(found: Option<usize>) -> Option<nat> {
    match found {
        Some(p) => Some(p as nat),
        None => None,
    }
}

pub open spec fn step_result_model(result: Result<CommandStep, Error>) -> Result<StepModel, Error> {
    match result {
        Ok(step) => Ok(step_model(step)),
        Err(error) => Err(error),
    }
}

pub open spec fn snapshot_wf(s: SnapshotModel) -> bool {
    s.cursor <= s.line.len() && (s.mark matches Some(m) ==> m <= s.line.len())
}

/// Cursor and mark are boundaries of the line, and so are every saved
/// snapshot's.
pub open spec fn model_wf(m: LineModel) -> bool {
    &&& m.cursor <= m.line.len()
    &&& (m.mark matches Some(k) ==> k <= m.line.len())
    &&& forall|i: int| 0 <= i < m.undo.len() ==> snapshot_wf(#[trigger] m.undo[i])
    &&& forall|i: int| 0 <= i < m.redo.len() ==> snapshot_wf(#[trigger] m.redo[i])
}

pub open spec fn snapshot_of(m: LineModel) -> SnapshotModel {
    SnapshotModel { line: m.line, cursor: m.cursor, mark: m.mark, input_mode: m.input_mode }
}

pub open spec fn restored(m: LineModel, s: SnapshotModel) -> LineModel {
    LineModel { line: s.line, cursor: s.cursor, mark: s.mark, input_mode: s.input_mode, ..m }
}

/// Where the mark lands when `[start, end)` is replaced by `inserted` units.
pub open spec fn adjusted_mark(mark: Option<nat>, start: nat, end: nat, inserted: nat) -> Option<nat> {
    match mark {
        None => None,
        Some(k) => Some(
            if start == end && k > start {
                k + inserted
            } else if k < start {
                k
            } else if k <= end {
                (start + min_int(k - start, inserted as int)) as nat
            } else {
                (k - (end - start) + inserted) as nat
            },
        ),
    }
}

/// Record `before` for undo when the line text changed, discarding redo.
pub open spec fn recorded(before: LineModel, after: LineModel) -> LineModel {
    if after.line == before.line {
        after
    } else {
        LineModel { undo: before.undo.push(snapshot_of(before)), redo: Seq::empty(), ..after }
    }
}

/// Replace `[start, end)` by `replacement`, leaving the cursor after it.
pub open spec fn edited(m: LineModel, start: nat, end: nat, replacement: Seq<TextUnit>) -> LineModel {
    recorded(
        m,
        LineModel {
            line: m.line.subrange(0, start as int) + replacement + m.line.subrange(end as int, m.line.len() as int),
            cursor: start + replacement.len(),
            mark: adjusted_mark(m.mark, start, end, replacement.len()),
            ..m
        },
    )
}

pub open spec fn applied(m: LineModel, outcome: OutcomeModel) -> (LineModel, Result<StepModel, Error>) {
    (m, Ok(StepModel::Applied(outcome)))
}

pub open spec fn failed(m: LineModel, error: Error) -> (LineModel, Result<StepModel, Error>) {
    (m, Err(error))
}

/// The first match at or after `first`.
pub open spec fn first_match(units: Seq<TextUnit>, needle: Seq<TextUnit>, first: int) -> Option<nat> {
    if exists|p: int| first <= p && #[trigger] matches_at(units, needle, p) {
        let p = choose|p: int| first <= p && #[trigger] matches_at(units, needle, p) && forall|q: int|
            first <= q < p ==> !#[trigger] matches_at(units, needle, q);
        Some(p as nat)
    } else {
        None
    }
}

/// The last match at or before `bound`.
pub open spec fn last_match(units: Seq<TextUnit>, needle: Seq<TextUnit>, bound: int) -> Option<nat> {
    if exists|p: int| p <= bound && #[trigger] matches_at(units, needle, p) {
        let p = choose|p: int| p <= bound && #[trigger] matches_at(units, needle, p) && forall|q: int|
            p < q <= bound ==> !#[trigger] matches_at(units, needle, q);
        Some(p as nat)
    } else {
        None
    }
}

/// The position an exact search reports.
pub open spec fn search_position(units: Seq<TextUnit>, needle: Seq<TextUnit>, cursor: nat, direction: Direction, include_cursor: bool) -> Option<nat> {
    if needle.len() == 0 || needle.len() > units.len() {
        None
    } else {
        match direction {
            Direction::Next => first_match(units, needle, if include_cursor { cursor as int } else { cursor + 1 as int }),
            Direction::Previous => last_match(units, needle, if include_cursor { cursor as int } else { cursor - 1 }),
        }
    }
}

pub open spec fn searched(m: LineModel, found: Option<nat>) -> (LineModel, Result<StepModel, Error>) {
    match found {
        Some(p) => applied(LineModel { cursor: p, ..m }, OutcomeModel::CursorMoved(p)),
        None => applied(m, OutcomeModel::Refresh(Refresh::Beep)),
    }
}

pub open spec fn mark_view(mark: Option<TextIndex>) -> Option<nat> {
    match mark {
        Some(m) => Some(m@),
        None => None,
    }
}

/// Delete or kill a resolved target.
pub open spec fn deleted(m: LineModel, target: EditTarget, save: bool) -> (LineModel, Result<StepModel, Error>) {
    match target_result(m.line, m.cursor, m.mark, target) {
        Err(e) => failed(m, e),
        Ok((s, e)) => {
            let after = edited(m, s, e, Seq::empty());
            applied(
                if save {
                    LineModel { kill: Some(m.line.subrange(s as int, e as int)), ..after }
                } else {
                    after
                },
                OutcomeModel::Continue,
            )
        },
    }
}

/// The units swapped by transposition, and where the cursor goes.
pub open spec fn transposed(m: LineModel) -> LineModel {
    let first = if m.cursor == m.line.len() { m.cursor - 2 } else { m.cursor - 1 };
    recorded(
        m,
        LineModel {
            line: m.line.update(first, m.line[first + 1]).update(first + 1, m.line[first]),
            cursor: min_int(m.cursor + 1int, m.line.len() as int) as nat,
            ..m
        },
    )
}

/// The complete semantics of one action on the line state: the state after
/// it and what it reports. A failed action leaves the state unchanged.
pub open spec fn step(m: LineModel, action: Action) -> (LineModel, Result<StepModel, Error>) {
    match action {
        Action::Noop => applied(m, OutcomeModel::Continue),
        Action::Insert(text) => if text@.len() == 0 {
            applied(m, OutcomeModel::Continue)
        } else {
            let start = m.cursor;
            let end = match m.input_mode {
                InputMode::Insert => start,
                InputMode::Replace => min_int(start + text@.len() as int, m.line.len() as int) as nat,
                InputMode::ReplaceOnce => min_int(start + 1int, m.line.len() as int) as nat,
            };
            let after = edited(m, start, end, text@);
            applied(
                if m.input_mode == InputMode::ReplaceOnce {
                    LineModel { input_mode: InputMode::Insert, ..after }
                } else {
                    after
                },
                OutcomeModel::Continue,
            )
        },
        Action::Move(motion) => match destination_result(m.line, m.cursor, motion) {
            Ok(p) => applied(LineModel { cursor: p, ..m }, OutcomeModel::CursorMoved(p)),
            Err(e) => failed(m, e),
        },
        Action::Delete(target) => deleted(m, target, false),
        Action::Kill(target) => deleted(m, target, true),
        Action::DeleteOrEndOfInput => if m.line.len() == 0 {
            applied(m, OutcomeModel::EndOfInput)
        } else if m.cursor == m.line.len() {
            applied(m, OutcomeModel::Refresh(Refresh::Beep))
        } else {
            applied(edited(m, m.cursor, m.cursor + 1, Seq::empty()), OutcomeModel::Continue)
        },
        Action::Copy(target) => match target_result(m.line, m.cursor, m.mark, target) {
            Err(e) => failed(m, e),
            Ok((s, e)) => applied(LineModel { kill: Some(m.line.subrange(s as int, e as int)), ..m }, OutcomeModel::Continue),
        },
        Action::Yank(placement) => match m.kill {
            None => applied(m, OutcomeModel::Continue),
            Some(killed) => {
                let start = match placement {
                    YankPlacement::AtCursor => m.cursor,
                    YankPlacement::AfterCursor => min_int(m.cursor + 1int, m.line.len() as int) as nat,
                };
                applied(edited(m, start, start, killed), OutcomeModel::Continue)
            },
        },
        Action::SetMark => applied(LineModel { mark: Some(m.cursor), ..m }, OutcomeModel::Continue),
        Action::ExchangeMark => match m.mark {
            None => failed(m, Error::MarkNotSet),
            Some(k) => if k > m.line.len() {
                failed(m, Error::TextIndexOutOfBounds { index: k as usize, len: m.line.len() as usize })
            } else {
                applied(LineModel { mark: Some(m.cursor), cursor: k, ..m }, OutcomeModel::CursorMoved(k))
            },
        },
        Action::Transform { target, transform } => match target_result(m.line, m.cursor, m.mark, target) {
            Err(e) => failed(m, e),
            Ok((s, e)) => applied(
                edited(m, s, e, transformed(m.line.subrange(s as int, e as int), transform)),
                OutcomeModel::Continue,
            ),
        },
        Action::TransposeCharacters => if m.cursor == 0 || m.line.len() < 2 {
            applied(m, OutcomeModel::Continue)
        } else {
            applied(transposed(m), OutcomeModel::Continue)
        },
        Action::Search { pattern, direction } => if pattern@.len() == 0 {
            failed(m, Error::EmptySearchPattern)
        } else {
            searched(
                LineModel { search: Some(pattern@), ..m },
                search_position(m.line, pattern@, m.cursor, direction, true),
            )
        },
        Action::RepeatSearch(direction) => match m.search {
            None => failed(m, Error::SearchPatternNotSet),
            Some(pattern) => searched(m, search_position(m.line, pattern, m.cursor, direction, false)),
        },
        Action::SetInputMode(mode) => applied(LineModel { input_mode: mode, ..m }, OutcomeModel::Continue),
        Action::ToggleInputMode => applied(
            LineModel {
                input_mode: if m.input_mode == InputMode::Insert { InputMode::Replace } else { InputMode::Insert },
                ..m
            },
            OutcomeModel::Continue,
        ),
        Action::SetKeymap(mode) => applied(LineModel { keymap_mode: mode, ..m }, OutcomeModel::Continue),
        Action::SetModes { input, keymap } => applied(
            LineModel { input_mode: input, keymap_mode: keymap, ..m },
            OutcomeModel::Continue,
        ),
        Action::AcceptLine => applied(m, OutcomeModel::Accepted(m.line)),
        Action::EndOfInput => applied(m, OutcomeModel::EndOfInput),
        Action::Complete => (m, Ok(StepModel::NeedsCompletion)),
        Action::History(direction) => (m, Ok(StepModel::NeedsHistory(direction))),
        Action::Undo => if m.undo.len() == 0 {
            applied(m, OutcomeModel::Continue)
        } else {
            let previous = m.undo.last();
            applied(
                LineModel { undo: m.undo.drop_last(), redo: m.redo.push(snapshot_of(m)), ..restored(m, previous) },
                OutcomeModel::CursorMoved(previous.cursor),
            )
        },
        Action::Redo => if m.redo.len() == 0 {
            applied(m, OutcomeModel::Continue)
        } else {
            let next = m.redo.last();
            applied(
                LineModel { redo: m.redo.drop_last(), undo: m.undo.push(snapshot_of(m)), ..restored(m, next) },
                OutcomeModel::CursorMoved(next.cursor),
            )
        },
        Action::Refresh(refresh) => applied(m, OutcomeModel::Refresh(refresh)),
        Action::User(name) => (m, Ok(StepModel::NeedsUserCommand(name@))),
    }
}

/// An exact search's reported position is the one `search_position` names.
pub proof fn lemma_search_position(
    units: Seq<TextUnit>,
    needle: Seq<TextUnit>,
    cursor: nat,
    direction: Direction,
    include_cursor: bool,
    found: Option<usize>,
)
    requires
        search_result(units, needle, cursor as int, direction, include_cursor, found),
    ensures
        search_position(units, needle, cursor, direction, include_cursor) == usize_option_view(found),
        found matches Some(p) ==> p + needle.len() <= units.len(),
{
    if needle.len() == 0 || needle.len() > units.len() {
    } else {
        match direction {
            Direction::Next => {
                let first: int = if include_cursor { cursor as int } else { cursor + 1int };
                match found {
                    Some(p) => {
                        assert(first <= p && matches_at(units, needle, p as int));
                        let q = choose|q: int| first <= q && #[trigger] matches_at(units, needle, q) && forall|r: int|
                            first <= r < q ==> !#[trigger] matches_at(units, needle, r);
                        assert(first <= q && matches_at(units, needle, q));
                        if q < p {
                            assert(!matches_at(units, needle, q));
                        }
                        if p < q {
                            assert(!matches_at(units, needle, p as int));
                        }
                    },
                    None => {},
                }
            },
            Direction::Previous => {
                let bound: int = if include_cursor { cursor as int } else { cursor - 1 };
                match found {
                    Some(p) => {
                        assert(p <= bound && matches_at(units, needle, p as int));
                        let q = choose|q: int| q <= bound && #[trigger] matches_at(units, needle, q) && forall|r: int|
                            q < r <= bound ==> !#[trigger] matches_at(units, needle, r);
                        assert(q <= bound && matches_at(units, needle, q));
                        if q < p {
                            assert(!matches_at(units, needle, p as int));
                        }
                        if p < q {
                            assert(!matches_at(units, needle, q));
                        }
                    },
                    None => {},
                }
            },
        }
    }
}

/// Where `count` repetitions of a motion lead from the cursor of `m`.
pub open spec fn repeated_position_of(m: LineModel, motion: Motion, count: usize) -> Result<nat, Error> {
    repeated_position(m.line, m.cursor, motion, count as nat)
}

/// The keymap a fresh line starts in for an editing family.
pub open spec fn initial_keymap(mode: EditingMode) -> KeymapMode {
    match mode {
        EditingMode::Emacs => KeymapMode::Emacs,
        EditingMode::Vi => KeymapMode::ViInsert,
    }
}

/// A restorable copy of the line, cursor, mark and input mode.
pub struct Snapshot {
    pub line: Text,
    pub cursor: TextIndex,
    pub mark: Option<TextIndex>,
    pub input_mode: InputMode,
}

impl View for Snapshot {
    type V = SnapshotModel;

    open spec fn view(&self) -> SnapshotModel {
        SnapshotModel { line: self.line@, cursor: self.cursor@, mark: mark_view(self.mark), input_mode: self.input_mode }
    }
}

pub open spec fn snapshots_view(v: Seq<Snapshot>) -> Seq<SnapshotModel> {
    Seq::new(v.len(), |i: int| v[i]@)
}

/// The line state of one editing session.
pub struct State {
    pub line: Text,
    pub cursor: TextIndex,
    pub mark: Option<TextIndex>,
    pub kill: Option<Text>,
    pub search_pattern: Option<Text>,
    pub input_mode: InputMode,
    pub keymap_mode: KeymapMode,
    pub keymaps: Keymaps,
    pub undo: Vec<Snapshot>,
    pub redo: Vec<Snapshot>,
}

pub open spec fn text_option_view(t: Option<Text>) -> Option<Seq<TextUnit>> {
    match t {
        Some(t) => Some(t@),
        None => None,
    }
}

fn initial_keymap_exec(mode: EditingMode) -> (keymap: KeymapMode)
    ensures
        keymap == initial_keymap(mode),
{
    match mode {
        EditingMode::Emacs => KeymapMode::Emacs,
        EditingMode::Vi => KeymapMode::ViInsert,
    }
}

fn copy_text_option(t: &Option<Text>) -> (copy: Option<Text>)
    ensures
        text_option_view(copy) == text_option_view(*t),
{
    match t {
        Some(t) => Some(t.duplicate()),
        None => None,
    }
}

impl State {
    pub open spec fn model(&self) -> LineModel {
        LineModel {
            line: self.line@,
            cursor: self.cursor@,
            mark: mark_view(self.mark),
            kill: text_option_view(self.kill),
            search: text_option_view(self.search_pattern),
            input_mode: self.input_mode,
            keymap_mode: self.keymap_mode,
            undo: snapshots_view(self.undo@),
            redo: snapshots_view(self.redo@),
        }
    }

    /// Cursor and mark lie within the line, every saved snapshot is
    /// consistent, and the keymaps are well formed.
    pub open spec fn wf(&self) -> bool {
        &&& self.cursor@ <= self.line@.len()
        &&& (self.mark matches Some(k) ==> k@ <= self.line@.len())
        &&& forall|i: int| 0 <= i < self.undo@.len() ==> snapshot_wf(#[trigger] self.undo@[i]@)
        &&& forall|i: int| 0 <= i < self.redo@.len() ==> snapshot_wf(#[trigger] self.redo@[i]@)
        &&& self.keymaps.wf()
    }

    /// A well-formed state has a well-formed model.
    pub proof fn lemma_model_wf(&self)
        requires
            self.wf(),
        ensures
            model_wf(self.model()),
    {
        let m = self.model();
        assert forall|i: int| 0 <= i < m.undo.len() implies snapshot_wf(#[trigger] m.undo[i]) by {
            assert(m.undo[i] == self.undo@[i]@);
        }
        assert forall|i: int| 0 <= i < m.redo.len() implies snapshot_wf(#[trigger] m.redo[i]) by {
            assert(m.redo[i] == self.redo@[i]@);
        }
    }

    /// A fresh, empty line in the configured editing family.
    pub fn new(config: EditorConfig) -> (state: Self)
        ensures
            state.wf(),
            state.model() == (LineModel {
                line: Seq::empty(),
                cursor: 0,
                mark: None,
                kill: None,
                search: None,
                input_mode: InputMode::Insert,
                keymap_mode: initial_keymap(config.editing_mode),
                undo: Seq::empty(),
                redo: Seq::empty(),
            }),
    {
        let line = Text::new();
        let cursor = line.index_within(0);
        let state = State {
            line,
            cursor,
            mark: None,
            kill: None,
            search_pattern: None,
            input_mode: InputMode::Insert,
            keymap_mode: initial_keymap_exec(config.editing_mode()),
            keymaps: Keymaps::defaults(),
            undo: Vec::new(),
            redo: Vec::new(),
        };
        assert(snapshots_view(state.undo@) =~= Seq::<SnapshotModel>::empty());
        assert(snapshots_view(state.redo@) =~= Seq::<SnapshotModel>::empty());
        state
    }

    /// Begin a fresh line, keeping the registers, search pattern and
    /// bindings.
    pub fn reset_line(&mut self, config: EditorConfig)
        requires
            old(self).wf(),
        ensures
            final(self).wf(),
            final(self).model() == (LineModel {
                line: Seq::empty(),
                cursor: 0,
                mark: None,
                input_mode: InputMode::Insert,
                keymap_mode: initial_keymap(config.editing_mode),
                undo: Seq::empty(),
                redo: Seq::empty(),
                ..old(self).model()
            }),
            final(self).keymaps == old(self).keymaps,
    {
        self.line.clear();
        self.cursor = self.line.index_within(0);
        self.mark = None;
        self.input_mode = InputMode::Insert;
        self.keymap_mode = initial_keymap_exec(config.editing_mode());
        self.undo.clear();
        self.redo.clear();
        assert(snapshots_view(self.undo@) =~= Seq::<SnapshotModel>::empty());
        assert(snapshots_view(self.redo@) =~= Seq::<SnapshotModel>::empty());
    }

    pub fn line(&self) -> (line: &Text)
        ensures
            line@ == self.model().line,
    {
        &self.line
    }

    pub fn cursor(&self) -> (cursor: TextIndex)
        ensures
            cursor@ == self.model().cursor,
    {
        self.cursor
    }

    pub fn input_mode(&self) -> (mode: InputMode)
        ensures
            mode == self.model().input_mode,
    {
        self.input_mode
    }

    pub fn keymap_mode(&self) -> (mode: KeymapMode)
        ensures
            mode == self.model().keymap_mode,
    {
        self.keymap_mode
    }

    pub fn mark(&self) -> (mark: Option<TextIndex>)
        ensures
            mark_view(mark) == self.model().mark,
    {
        self.mark
    }

    pub fn kill_buffer(&self) -> (kill: Option<&Text>)
        ensures
            match kill {
                Some(t) => self.model().kill == Some(t@),
                None => self.model().kill is None,
            },
    {
        match &self.kill {
            Some(t) => Some(t),
            None => None,
        }
    }

    pub fn search_pattern(&self) -> (pattern: Option<&Text>)
        ensures
            match pattern {
                Some(t) => self.model().search == Some(t@),
                None => self.model().search is None,
            },
    {
        match &self.search_pattern {
            Some(t) => Some(t),
            None => None,
        }
    }

    pub fn can_undo(&self) -> (can: bool)
        ensures
            can == (self.model().undo.len() > 0),
    {
        self.undo.len() > 0
    }

    pub fn can_redo(&self) -> (can: bool)
        ensures
            can == (self.model().redo.len() > 0),
    {
        self.redo.len() > 0
    }

    /// Select the insertion keymap of another editing family.
    pub fn select_editing_mode(&mut self, mode: EditingMode)
        requires
            old(self).wf(),
        ensures
            final(self).wf(),
            final(self).model() == (LineModel { keymap_mode: initial_keymap(mode), ..old(self).model() }),
            final(self).keymaps == old(self).keymaps,
    {
        self.keymap_mode = initial_keymap_exec(mode);
    }

    fn snapshot(&self) -> (snapshot: Snapshot)
        ensures
            snapshot@ == snapshot_of(self.model()),
    {
        Snapshot { line: self.line.duplicate(), cursor: self.cursor, mark: self.mark, input_mode: self.input_mode }
    }

    proof fn lemma_push_view(v: Seq<Snapshot>, s: Snapshot)
        ensures
            snapshots_view(v.push(s)) == snapshots_view(v).push(s@),
    {
        assert(snapshots_view(v.push(s)) =~= snapshots_view(v).push(s@));
    }

    proof fn lemma_drop_last_view(v: Seq<Snapshot>)
        requires
            v.len() > 0,
        ensures
            snapshots_view(v.drop_last()) == snapshots_view(v).drop_last(),
            snapshots_view(v).last() == v.last()@,
    {
        assert(snapshots_view(v.drop_last()) =~= snapshots_view(v).drop_last());
    }

    /// Record `before` for undo when the line changed.
    fn commit(&mut self, before: Snapshot, ghost_before: Ghost<LineModel>)
        requires
            before@ == snapshot_of(ghost_before@),
            old(self).model().undo == ghost_before@.undo,
            old(self).model().redo == ghost_before@.redo,
            snapshot_wf(before@),
            old(self).wf(),
        ensures
            final(self).wf(),
            final(self).model() == recorded(ghost_before@, old(self).model()),
            final(self).keymaps == old(self).keymaps,
    {
        if !self.line.same_as(&before.line) {
            let ghost u = self.undo@;
            self.undo.push(before);
            self.redo.clear();
            proof {
                Self::lemma_push_view(u, before);
                assert(snapshots_view(self.redo@) =~= Seq::<SnapshotModel>::empty());
            }
        }
    }

    /// Where the mark goes when `[start, end)` becomes `inserted` units.
    fn adjust_mark(mark: Option<TextIndex>, start: usize, end: usize, inserted: usize, old_len: usize, new_len: usize) -> (adjusted: Option<usize>)
        requires
            start <= end <= old_len,
            new_len == old_len - (end - start) + inserted,
            mark matches Some(k) ==> k@ <= old_len,
        ensures
            match adjusted {
                Some(a) => adjusted_mark(mark_view(mark), start as nat, end as nat, inserted as nat) == Some(a as nat)
                    && a <= new_len,
                None => mark is None,
            },
    {
        match mark {
            None => None,
            Some(k) => {
                let k = k.get();
                let position = if start == end && k > start {
                    k + inserted
                } else if k < start {
                    k
                } else if k <= end {
                    let shift = k - start;
                    start + if shift <= inserted {
                        shift
                    } else {
                        inserted
                    }
                } else {
                    k - (end - start) + inserted
                };
                Some(position)
            },
        }
    }

    /// Replace `[start, end)` by `replacement` as one recorded edit, leaving
    /// the cursor after the replacement.
    pub fn replace_at(&mut self, replacement: &Text, start: usize, end: usize) -> (result: Result<Outcome, Error>)
        requires
            old(self).wf(),
        ensures
            final(self).wf(),
            final(self).keymaps == old(self).keymaps,
            start <= end <= old(self).model().line.len() ==> result == Ok::<Outcome, Error>(Outcome::Continue)
                && final(self).model() == edited(old(self).model(), start as nat, end as nat, replacement@),
            !(start <= end <= old(self).model().line.len()) ==> result == Err::<Outcome, Error>(
                Error::InvalidTextSpan { start, end, len: old(self).model().line.len() as usize },
            ) && final(self).model() == old(self).model(),
    {
        let span = self.line.span(start, end)?;
        let ghost before_model = self.model();
        let before = self.snapshot();
        let old_len = self.line.len();
        let _ = self.line.replace(span, replacement);
        let new_len = self.line.len();
        proof {
            assert(self.line@.len() == old_len - (end - start) + replacement@.len());
        }
        let new_mark = Self::adjust_mark(self.mark, start, end, replacement.len(), old_len, new_len);
        self.mark = match new_mark {
            Some(p) => Some(self.line.index_within(p)),
            None => None,
        };
        self.cursor = self.line.index_within(start + replacement.len());
        self.commit(before, Ghost(before_model));
        Ok(Outcome::Continue)
    }

    fn insert(&mut self, inserted: Text) -> (outcome: Outcome)
        requires
            old(self).wf(),
        ensures
            final(self).wf(),
            final(self).keymaps == old(self).keymaps,
            (final(self).model(), Ok::<StepModel, Error>(StepModel::Applied(outcome_model(outcome))))
                == step(old(self).model(), Action::Insert(inserted)),
    {
        if inserted.is_empty() {
            return Outcome::Continue;
        }
        let start = self.cursor.get();
        let len = self.line.len();
        let end = match self.input_mode {
            InputMode::Insert => start,
            InputMode::Replace => if inserted.len() <= len - start {
                start + inserted.len()
            } else {
                len
            },
            InputMode::ReplaceOnce => if start < len {
                start + 1
            } else {
                len
            },
        };
        let reset_once = self.input_mode == InputMode::ReplaceOnce;
        let _ = self.replace_at(&inserted, start, end);
        if reset_once {
            self.input_mode = InputMode::Insert;
        }
        Outcome::Continue
    }

    fn move_cursor(&mut self, motion: Motion) -> (result: Result<Outcome, Error>)
        requires
            old(self).wf(),
        ensures
            final(self).wf(),
            final(self).keymaps == old(self).keymaps,
            (final(self).model(), outcome_result_model(result)) == step(old(self).model(), Action::Move(motion)),
    {
        let destination = destination(&self.line, self.cursor, motion)?;
        self.cursor = destination;
        Ok(Outcome::CursorMoved(destination))
    }

    /// Delete a resolved target, saving it in the kill register when asked.
    fn delete(&mut self, target: EditTarget, save: bool) -> (result: Result<Outcome, Error>)
        requires
            old(self).wf(),
        ensures
            final(self).wf(),
            final(self).keymaps == old(self).keymaps,
            (final(self).model(), outcome_result_model(result)) == deleted(old(self).model(), target, save),
    {
        let span = target_span(&self.line, self.cursor, self.mark, target)?;
        let start = span.start().get();
        let end = span.end().get();
        let removed = Text::from_slice(self.line.slice_within(span));
        let empty = Text::new();
        let _ = self.replace_at(&empty, start, end);
        if save {
            self.kill = Some(removed);
        }
        Ok(Outcome::Continue)
    }

    fn copy(&mut self, target: EditTarget) -> (result: Result<Outcome, Error>)
        requires
            old(self).wf(),
        ensures
            final(self).wf(),
            final(self).keymaps == old(self).keymaps,
            (final(self).model(), outcome_result_model(result)) == step(old(self).model(), Action::Copy(target)),
    {
        let span = target_span(&self.line, self.cursor, self.mark, target)?;
        let copied = Text::from_slice(self.line.slice_within(span));
        self.kill = Some(copied);
        Ok(Outcome::Continue)
    }

    fn yank(&mut self, placement: YankPlacement) -> (outcome: Outcome)
        requires
            old(self).wf(),
        ensures
            final(self).wf(),
            final(self).keymaps == old(self).keymaps,
            (final(self).model(), Ok::<StepModel, Error>(StepModel::Applied(outcome_model(outcome))))
                == step(old(self).model(), Action::Yank(placement)),
    {
        let killed = match &self.kill {
            None => {
                return Outcome::Continue;
            },
            Some(killed) => killed.duplicate(),
        };
        let c = self.cursor.get();
        let start = match placement {
            YankPlacement::AtCursor => c,
            YankPlacement::AfterCursor => if c < self.line.len() {
                c + 1
            } else {
                self.line.len()
            },
        };
        let _ = self.replace_at(&killed, start, start);
        Outcome::Continue
    }

    fn exchange_mark(&mut self) -> (result: Result<Outcome, Error>)
        requires
            old(self).wf(),
        ensures
            final(self).wf(),
            final(self).keymaps == old(self).keymaps,
            (final(self).model(), outcome_result_model(result)) == step(old(self).model(), Action::ExchangeMark),
    {
        let mark = match self.mark {
            Some(mark) => mark,
            None => {
                return Err(Error::MarkNotSet);
            },
        };
        self.line.index(mark.get())?;
        self.mark = Some(self.cursor);
        self.cursor = mark;
        Ok(Outcome::CursorMoved(mark))
    }

    fn transform(&mut self, target: EditTarget, transform: TextTransform) -> (result: Result<Outcome, Error>)
        requires
            old(self).wf(),
        ensures
            final(self).wf(),
            final(self).keymaps == old(self).keymaps,
            (final(self).model(), outcome_result_model(result)) == step(
                old(self).model(),
                Action::Transform { target, transform },
            ),
    {
        let span = target_span(&self.line, self.cursor, self.mark, target)?;
        let start = span.start().get();
        let end = span.end().get();
        let replacement = transform_units(self.line.slice_within(span), transform);
        let _ = self.replace_at(&replacement, start, end);
        Ok(Outcome::Continue)
    }

    fn transpose(&mut self) -> (outcome: Outcome)
        requires
            old(self).wf(),
        ensures
            final(self).wf(),
            final(self).keymaps == old(self).keymaps,
            (final(self).model(), Ok::<StepModel, Error>(StepModel::Applied(outcome_model(outcome))))
                == step(old(self).model(), Action::TransposeCharacters),
    {
        let c = self.cursor.get();
        let len = self.line.len();
        if c == 0 || len < 2 {
            return Outcome::Continue;
        }
        let first = if c == len {
            c - 2
        } else {
            c - 1
        };
        let units = self.line.as_units();
        let a = units[first];
        let b = units[first + 1];
        let mut replacement = Text::new();
        replacement.push(b);
        replacement.push(a);
        let ghost before_model = self.model();
        let before = self.snapshot();
        let span = self.line.span_within(first, first + 2);
        let _ = self.line.replace(span, &replacement);
        proof {
            assert(self.line@ =~= before_model.line.update(first as int, b).update(first + 1, a));
        }
        let new_len = self.line.len();
        self.cursor = self.line.index_within(if c < new_len {
            c + 1
        } else {
            new_len
        });
        self.commit(before, Ghost(before_model));
        Outcome::Continue
    }

    fn search(&mut self, pattern: Text, direction: Direction) -> (result: Result<Outcome, Error>)
        requires
            old(self).wf(),
        ensures
            final(self).wf(),
            final(self).keymaps == old(self).keymaps,
            (final(self).model(), outcome_result_model(result)) == step(
                old(self).model(),
                Action::Search { pattern, direction },
            ),
    {
        if pattern.is_empty() {
            return Err(Error::EmptySearchPattern);
        }
        let found = find_pattern(&self.line, &pattern, self.cursor, direction, true);
        proof {
            lemma_search_position(self.line@, pattern@, self.cursor@, direction, true, found);
        }
        self.search_pattern = Some(pattern);
        Ok(self.search_outcome(found))
    }

    fn repeat_search(&mut self, direction: Direction) -> (result: Result<Outcome, Error>)
        requires
            old(self).wf(),
        ensures
            final(self).wf(),
            final(self).keymaps == old(self).keymaps,
            (final(self).model(), outcome_result_model(result)) == step(old(self).model(), Action::RepeatSearch(direction)),
    {
        let found = match &self.search_pattern {
            None => {
                return Err(Error::SearchPatternNotSet);
            },
            Some(pattern) => {
                let found = find_pattern(&self.line, pattern, self.cursor, direction, false);
                proof {
                    lemma_search_position(self.line@, pattern@, self.cursor@, direction, false, found);
                }
                found
            },
        };
        Ok(self.search_outcome(found))
    }

    fn search_outcome(&mut self, found: Option<usize>) -> (outcome: Outcome)
        requires
            old(self).wf(),
            found matches Some(p) ==> p <= old(self).model().line.len(),
        ensures
            final(self).wf(),
            final(self).keymaps == old(self).keymaps,
            (final(self).model(), Ok::<StepModel, Error>(StepModel::Applied(outcome_model(outcome))))
                == searched(old(self).model(), usize_option_view(found)),
    {
        match found {
            Some(position) => {
                self.cursor = self.line.index_within(position);
                Outcome::CursorMoved(self.cursor)
            },
            None => Outcome::Refresh(Refresh::Beep),
        }
    }

    fn restore(&mut self, snapshot: Snapshot)
        ensures
            final(self).model() == restored(old(self).model(), snapshot@),
            final(self).keymaps == old(self).keymaps,
            final(self).undo@ == old(self).undo@,
            final(self).redo@ == old(self).redo@,
            final(self).line@ == snapshot.line@,
            final(self).cursor == snapshot.cursor,
            final(self).mark == snapshot.mark,
    {
        self.line = snapshot.line;
        self.cursor = snapshot.cursor;
        self.mark = snapshot.mark;
        self.input_mode = snapshot.input_mode;
    }

    fn undo(&mut self) -> (outcome: Outcome)
        requires
            old(self).wf(),
        ensures
            final(self).wf(),
            final(self).keymaps == old(self).keymaps,
            (final(self).model(), Ok::<StepModel, Error>(StepModel::Applied(outcome_model(outcome))))
                == step(old(self).model(), Action::Undo),
    {
        let ghost m = self.model();
        let ghost u = self.undo@;
        let ghost r = self.redo@;
        let previous = match self.undo.pop() {
            Some(previous) => previous,
            None => {
                return Outcome::Continue;
            },
        };
        proof {
            Self::lemma_drop_last_view(u);
            assert(snapshot_wf(u[u.len() - 1]@));
            assert(previous == u.last());
        }
        let current = self.snapshot();
        self.restore(previous);
        self.redo.push(current);
        proof {
            Self::lemma_push_view(r, current);
            assert(forall|i: int| 0 <= i < self.undo@.len() ==> self.undo@[i] == u[i]);
            assert(forall|i: int| 0 <= i < r.len() ==> self.redo@[i] == r[i]);
            assert(self.redo@[r.len() as int] == current);
        }
        Outcome::CursorMoved(self.cursor)
    }

    fn redo(&mut self) -> (outcome: Outcome)
        requires
            old(self).wf(),
        ensures
            final(self).wf(),
            final(self).keymaps == old(self).keymaps,
            (final(self).model(), Ok::<StepModel, Error>(StepModel::Applied(outcome_model(outcome))))
                == step(old(self).model(), Action::Redo),
    {
        let ghost m = self.model();
        let ghost u = self.undo@;
        let ghost r = self.redo@;
        let next = match self.redo.pop() {
            Some(next) => next,
            None => {
                return Outcome::Continue;
            },
        };
        proof {
            Self::lemma_drop_last_view(r);
            assert(snapshot_wf(r[r.len() - 1]@));
            assert(next == r.last());
        }
        let current = self.snapshot();
        self.restore(next);
        self.undo.push(current);
        proof {
            Self::lemma_push_view(u, current);
            assert(forall|i: int| 0 <= i < self.redo@.len() ==> self.redo@[i] == r[i]);
            assert(forall|i: int| 0 <= i < u.len() ==> self.undo@[i] == u[i]);
            assert(self.undo@[u.len() as int] == current);
        }
        Outcome::CursorMoved(self.cursor)
    }

    fn delete_or_end_of_input(&mut self) -> (outcome: Outcome)
        requires
            old(self).wf(),
        ensures
            final(self).wf(),
            final(self).keymaps == old(self).keymaps,
            (final(self).model(), Ok::<StepModel, Error>(StepModel::Applied(outcome_model(outcome))))
                == step(old(self).model(), Action::DeleteOrEndOfInput),
    {
        let len = self.line.len();
        let c = self.cursor.get();
        if len == 0 {
            Outcome::EndOfInput
        } else if c == len {
            Outcome::Refresh(Refresh::Beep)
        } else {
            let empty = Text::new();
            let _ = self.replace_at(&empty, c, c + 1);
            Outcome::Continue
        }
    }

    /// Install or replace a binding in one keymap.
    pub fn bind(&mut self, mode: KeymapMode, sequence: KeySequence, binding: Binding) -> (previous: Option<Binding>)
        requires
            old(self).wf(),
        ensures
            final(self).wf(),
            final(self).model() == old(self).model(),
            final(self).keymaps.table(mode) == old(self).keymaps.table(mode).insert(sequence@, binding),
            forall|other: KeymapMode| other != mode ==> final(self).keymaps.table(other) == old(self).keymaps.table(other),
            previous == (if old(self).keymaps.table(mode).contains_key(sequence@) {
                Some(old(self).keymaps.table(mode)[sequence@])
            } else {
                None::<Binding>
            }),
    {
        self.keymaps.bind(mode, sequence, binding)
    }

    /// Remove a binding from one keymap.
    pub fn unbind(&mut self, mode: KeymapMode, sequence: &KeySequence) -> (previous: Option<Binding>)
        requires
            old(self).wf(),
        ensures
            final(self).wf(),
            final(self).model() == old(self).model(),
            final(self).keymaps.table(mode) == old(self).keymaps.table(mode).remove(sequence@),
            forall|other: KeymapMode| other != mode ==> final(self).keymaps.table(other) == old(self).keymaps.table(other),
            previous == (if old(self).keymaps.table(mode).contains_key(sequence@) {
                Some(old(self).keymaps.table(mode)[sequence@])
            } else {
                None::<Binding>
            }),
    {
        self.keymaps.unbind(mode, sequence)
    }

    /// Restore the built-in keymaps and select an editing family.
    pub fn reset_bindings(&mut self, mode: EditingMode)
        requires
            old(self).wf(),
        ensures
            final(self).wf(),
            final(self).model() == (LineModel { keymap_mode: initial_keymap(mode), ..old(self).model() }),
    {
        self.keymaps = Keymaps::defaults();
        self.keymap_mode = initial_keymap_exec(mode);
    }

    /// Remove every binding of one keymap.
    pub fn clear_bindings(&mut self, mode: KeymapMode)
        requires
            old(self).wf(),
        ensures
            final(self).wf(),
            final(self).model() == old(self).model(),
            final(self).keymaps.table(mode) == Map::<Seq<TextUnit>, Binding>::empty(),
            forall|other: KeymapMode| other != mode ==> final(self).keymaps.table(other) == old(self).keymaps.table(other),
    {
        self.keymaps.clear(mode);
    }

    /// The exact binding of a sequence in one keymap.
    pub fn binding(&self, mode: KeymapMode, sequence: &KeySequence) -> (found: Option<&Binding>)
        requires
            self.wf(),
        ensures
            match found {
                Some(b) => self.keymaps.table(mode).contains_key(sequence@) && *b == self.keymaps.table(mode)[sequence@],
                None => !self.keymaps.table(mode).contains_key(sequence@),
            },
    {
        self.keymaps.binding(mode, sequence)
    }

    /// Every binding of one keymap.
    pub fn bindings(&self, mode: KeymapMode) -> (entries: &[(KeySequence, Binding)])
        requires
            self.wf(),
        ensures
            forall|i: int| 0 <= i < entries@.len() ==> #[trigger] self.keymaps.table(mode).contains_key(entries@[i].0@)
                && self.keymaps.table(mode)[entries@[i].0@] == entries@[i].1,
            forall|k: Seq<TextUnit>| #[trigger] self.keymaps.table(mode).contains_key(k) ==> exists|i: int|
                0 <= i < entries@.len() && #[trigger] entries@[i].0@ == k,
    {
        let entries = self.keymaps.bindings(mode);
        assert forall|i: int| 0 <= i < entries@.len() implies #[trigger] self.keymaps.table(mode).contains_key(entries@[i].0@)
            && self.keymaps.table(mode)[entries@[i].0@] == entries@[i].1 by {
            assert(self.keymaps.table(mode).contains_key(entries@[i].0@));
        }
        entries
    }

    /// Match a sequence against the active keymap.
    pub fn lookup(&self, sequence: &KeySequence) -> (result: KeyLookup)
        requires
            self.wf(),
        ensures
            lookup_result(self.keymaps.table(self.keymap_mode), sequence@, result),
    {
        self.keymaps.lookup(self.keymap_mode, sequence)
    }

    /// Where `count` repetitions of a motion lead from the cursor.
    pub fn motion_destination(&self, motion: Motion, count: usize) -> (result: Result<TextIndex, Error>)
        ensures
            match repeated_position_of(self.model(), motion, count) {
                Ok(position) => result matches Ok(index) && index@ == position,
                Err(error) => result == Err::<TextIndex, Error>(error),
            },
    {
        repeated_destination(&self.line, self.cursor, motion, count)
    }

    /// Insert text at the cursor without recording an undo entry.
    pub fn insert_untracked(&mut self, text: Text) -> (result: Result<(), Error>)
        requires
            old(self).wf(),
        ensures
            final(self).wf(),
            result is Ok,
            final(self).keymaps == old(self).keymaps,
            final(self).model() == (LineModel {
                line: old(self).model().line.subrange(0, old(self).model().cursor as int) + text@
                    + old(self).model().line.subrange(old(self).model().cursor as int, old(self).model().line.len() as int),
                cursor: old(self).model().cursor + text@.len(),
                mark: adjusted_mark(old(self).model().mark, old(self).model().cursor, old(self).model().cursor, text@.len()),
                ..old(self).model()
            }),
    {
        let start = self.cursor.get();
        let old_len = self.line.len();
        let span = self.line.span_within(start, start);
        let _ = self.line.replace(span, &text);
        let new_len = self.line.len();
        let new_mark = Self::adjust_mark(self.mark, start, start, text.len(), old_len, new_len);
        self.mark = match new_mark {
            Some(p) => Some(self.line.index_within(p)),
            None => None,
        };
        self.cursor = self.line.index_within(start + text.len());
        Ok(())
    }

    /// Replace the whole line without recording an undo entry, keeping the
    /// cursor and mark where the new line allows.
    pub fn replace_line_untracked(&mut self, line: Text) -> (result: Result<(), Error>)
        requires
            old(self).wf(),
        ensures
            final(self).wf(),
            result is Ok,
            final(self).keymaps == old(self).keymaps,
            final(self).model() == (LineModel {
                line: line@,
                cursor: min_int(old(self).model().cursor as int, line@.len() as int) as nat,
                mark: match old(self).model().mark {
                    Some(k) => if k <= line@.len() { Some(k) } else { None },
                    None => None,
                },
                ..old(self).model()
            }),
    {
        let len = line.len();
        let c = self.cursor.get();
        self.line = line;
        self.cursor = self.line.index_within(if c <= len { c } else { len });
        self.mark = match self.mark {
            Some(k) => if k.get() <= len {
                Some(k)
            } else {
                None
            },
            None => None,
        };
        Ok(())
    }

    /// Apply one action to the line state.
    pub fn execute(&mut self, action: Action) -> (result: Result<CommandStep, Error>)
        requires
            old(self).wf(),
        ensures
            final(self).wf(),
            final(self).keymaps == old(self).keymaps,
            (final(self).model(), step_result_model(result)) == step(old(self).model(), action),
    {
        let outcome = match action {
            Action::Noop => Outcome::Continue,
            Action::Insert(text) => self.insert(text),
            Action::Move(motion) => self.move_cursor(motion)?,
            Action::Delete(target) => self.delete(target, false)?,
            Action::Kill(target) => self.delete(target, true)?,
            Action::DeleteOrEndOfInput => self.delete_or_end_of_input(),
            Action::Copy(target) => self.copy(target)?,
            Action::Yank(placement) => self.yank(placement),
            Action::SetMark => {
                self.mark = Some(self.cursor);
                Outcome::Continue
            },
            Action::ExchangeMark => self.exchange_mark()?,
            Action::Transform { target, transform } => self.transform(target, transform)?,
            Action::TransposeCharacters => self.transpose(),
            Action::Search { pattern, direction } => self.search(pattern, direction)?,
            Action::RepeatSearch(direction) => self.repeat_search(direction)?,
            Action::SetInputMode(mode) => {
                self.input_mode = mode;
                Outcome::Continue
            },
            Action::ToggleInputMode => {
                self.input_mode = if self.input_mode == InputMode::Insert {
                    InputMode::Replace
                } else {
                    InputMode::Insert
                };
                Outcome::Continue
            },
            Action::SetKeymap(mode) => {
                self.keymap_mode = mode;
                Outcome::Continue
            },
            Action::SetModes { input, keymap } => {
                self.input_mode = input;
                self.keymap_mode = keymap;
                Outcome::Continue
            },
            Action::AcceptLine => Outcome::Accepted(self.line.duplicate()),
            Action::EndOfInput => Outcome::EndOfInput,
            Action::Complete => {
                return Ok(CommandStep::NeedsCompletion);
            },
            Action::History(direction) => {
                return Ok(CommandStep::NeedsHistory(direction));
            },
            Action::Undo => self.undo(),
            Action::Redo => self.redo(),
            Action::Refresh(refresh) => Outcome::Refresh(refresh),
            Action::User(name) => {
                return Ok(CommandStep::NeedsUserCommand(name));
            },
        };
        Ok(CommandStep::Applied(outcome))
    }
} // impl State

} // verus!
