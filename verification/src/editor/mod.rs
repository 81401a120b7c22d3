//! A native editor session with one owner for terminal restoration.

pub mod motion;
pub mod transform;
pub mod keymap;
pub mod line;
pub mod laws;
pub mod completion;
pub mod effect;
pub mod commands;
pub mod layout;
pub mod decode;
pub mod capability;
pub mod render;
pub mod driver;
mod sealed;

use crate::domain::{
    Action, Binding, EditingMode, EditorConfig, Error, InputMode, KeyLookup, KeySequence,
    KeymapMode, Motion, Prompt, Screen, ScreenPosition, ScreenSize, TerminalMode, Text, TextIndex, TextSpan, TextUnit,
};
use completion::{
    completed_text, matched, outcome_agrees, CompletionCandidates, CompletionEdit, CompletionOutcome,
    CompletionQuery,
};
use effect::{Effect, EffectStateError, Runtime, Suspension};
use capability::{CapabilityKind, TerminalProfile};
use layout::right_view;
use render::{EmitView, Presentation, RenderError, RenderSummary, Step, StepView};
use keymap::lookup_result;
use line::{
    adjusted_mark, edited, initial_keymap, repeated_position_of, step, step_result_model, LineModel, State,
};
pub use line::CommandStep;
use vstd::prelude::*;

verus! {

#[verifier::external_type_specification]
#[verifier::external_body]
pub struct ExIoError(std::io::Error);

/// `std::io::Error::other`: an I/O error of kind `Other` saying that the
/// session's terminal has already been restored. Nothing is stated of the
/// value.
#[verifier::external_body]
fn inactive_terminal_error() -> (error: std::io::Error) {
    std::io::Error::other("editor terminal is no longer active")
}

/// Terminal lifecycle operations owned by one editor session.
///
/// `activate` may change terminal state partially before it fails, so the
/// editor calls `restore` once after every failed activation. For an active
/// session the editor calls `restore` at most once, from `finish` or
/// `restore_terminal`.
pub trait TerminalControl {
    /// Prepare the terminal for this session and enter editing mode.
    fn activate(&mut self, config: EditorConfig) -> Result<(), std::io::Error>;

    /// Change the tty mode. A failed call leaves the previous mode usable.
    fn set_mode(&mut self, mode: TerminalMode) -> Result<(), std::io::Error>;

    /// Restore the state that preceded activation.
    fn restore(&mut self) -> Result<(), std::io::Error>;
}

/// Failure to activate a new editor, with the outcome of cleaning up the
/// partial activation.
#[derive(Debug)]
pub struct StartError {
    activation: std::io::Error,
    restoration: Option<std::io::Error>,
}

impl StartError {
    pub closed spec fn activation_error(&self) -> std::io::Error {
        self.activation
    }

    pub closed spec fn restoration_error(&self) -> Option<std::io::Error> {
        self.restoration
    }

    /// The error reported while preparing the terminal.
    pub fn activation(&self) -> (error: &std::io::Error)
        ensures
            *error == self.activation_error(),
    {
        &self.activation
    }

    /// The second error, when cleanup of the partial activation failed too.
    pub fn restoration(&self) -> (error: Option<&std::io::Error>)
        ensures
            match error {
                Some(e) => self.restoration_error() == Some(*e),
                None => self.restoration_error() is None,
            },
    {
        match &self.restoration {
            Some(e) => Some(e),
            None => None,
        }
    }
}

/// An editing session: private line state and the owner of terminal
/// restoration.
pub struct Editor<T: TerminalControl> {
    config: EditorConfig,
    state: State,
    terminal: Option<T>,
    terminal_mode: TerminalMode,
    effects: Runtime,
    renderer: render::State,
}

/// The state of a fresh line in a configuration.
pub open spec fn fresh_model(config: EditorConfig) -> LineModel {
    LineModel {
        line: Seq::empty(),
        cursor: 0,
        mark: None,
        kill: None,
        search: None,
        input_mode: InputMode::Insert,
        keymap_mode: initial_keymap(config.editing_mode),
        undo: Seq::empty(),
        redo: Seq::empty(),
    }
}

impl<T: TerminalControl> Editor<T> {
    /// The line state of the session.
    pub closed spec fn model(&self) -> LineModel {
        self.state.model()
    }

    /// The session's state is consistent.
    pub closed spec fn wf(&self) -> bool {
        self.state.wf() && self.renderer.wf()
    }

    /// A consistent session's cursor is a boundary of its line.
    pub proof fn lemma_cursor_in_line(&self)
        requires
            self.wf(),
        ensures
            self.model().cursor <= self.model().line.len(),
    {
    }

    /// The display the session renders to, once one is configured.
    pub closed spec fn display(&self) -> Option<render::DisplayView> {
        self.renderer@
    }

    /// The bindings of one keymap.
    pub closed spec fn table(&self, mode: KeymapMode) -> Map<Seq<TextUnit>, Binding> {
        self.state.keymaps.table(mode)
    }

    /// The configuration of the session.
    pub closed spec fn configuration(&self) -> EditorConfig {
        self.config
    }

    /// The committed tty mode.
    pub closed spec fn committed_mode(&self) -> TerminalMode {
        self.terminal_mode
    }

    /// The sequence number of the request awaiting a response.
    pub closed spec fn pending_effect(&self) -> Option<u64> {
        self.effects.pending_sequence
    }

    /// The last sequence number issued to a request.
    pub closed spec fn issued_effects(&self) -> u64 {
        self.effects.next_sequence
    }

    /// Whether the terminal has not been restored yet.
    pub closed spec fn active(&self) -> bool {
        self.terminal is Some
    }

    /// Activate a terminal and create an empty session. When activation
    /// fails, restoration is attempted once before the error returns.
    pub fn new(config: EditorConfig, terminal: T) -> (result: Result<Self, StartError>)
        ensures
            result matches Ok(editor) ==> {
                &&& editor.wf()
                &&& editor.model() == fresh_model(config)
                &&& editor.configuration() == config
                &&& editor.committed_mode() == TerminalMode::Editing
                &&& editor.active()
                &&& editor.pending_effect() is None
                &&& editor.issued_effects() == 0
                &&& editor.display() is None
            },
    {
        let mut terminal = terminal;
        match terminal.activate(config) {
            Err(activation) => {
                let restoration = match terminal.restore() {
                    Ok(()) => None,
                    Err(error) => Some(error),
                };
                Err(StartError { activation, restoration })
            },
            Ok(()) => {
                let state = State::new(config);
                Ok(
                    Editor {
                        config,
                        state,
                        terminal: Some(terminal),
                        terminal_mode: TerminalMode::Editing,
                        effects: Runtime::new(),
                        renderer: render::State::new(),
                    },
                )
            },
        }
    }

    /// The policy governing the session.
    pub fn config(&self) -> (config: EditorConfig)
        ensures
            config == self.configuration(),
    {
        self.config
    }

    /// Change the session policy, keeping the line state. A change of
    /// editing family selects that family's insertion keymap.
    pub fn reconfigure(&mut self, config: EditorConfig)
        requires
            old(self).wf(),
        ensures
            final(self).display() == old(self).display(),
            final(self).wf(),
            final(self).configuration() == config,
            final(self).model() == (if old(self).configuration().editing_mode != config.editing_mode {
                LineModel { keymap_mode: initial_keymap(config.editing_mode), ..old(self).model() }
            } else {
                old(self).model()
            }),
            forall|mode: KeymapMode| final(self).table(mode) == old(self).table(mode),
            final(self).committed_mode() == old(self).committed_mode(),
            final(self).active() == old(self).active(),
    {
        if self.config.editing_mode != config.editing_mode {
            self.state.select_editing_mode(config.editing_mode);
        }
        self.config = config;
    }

    /// The current logical line.
    pub fn line(&self) -> (line: &Text)
        ensures
            line@ == self.model().line,
    {
        self.state.line()
    }

    /// The cursor boundary within the line.
    pub fn cursor(&self) -> (cursor: TextIndex)
        ensures
            cursor@ == self.model().cursor,
    {
        self.state.cursor()
    }

    /// Whether following text is inserted or replaces the line.
    pub fn input_mode(&self) -> (mode: InputMode)
        ensures
            mode == self.model().input_mode,
    {
        self.state.input_mode()
    }

    /// The keymap used by input dispatch.
    pub fn keymap_mode(&self) -> (mode: KeymapMode)
        ensures
            mode == self.model().keymap_mode,
    {
        self.state.keymap_mode()
    }

    /// The saved mark, when one is set.
    pub fn mark(&self) -> (mark: Option<TextIndex>)
        ensures
            line::mark_view(mark) == self.model().mark,
    {
        self.state.mark()
    }

    /// The text most recently copied or killed.
    pub fn kill_buffer(&self) -> (kill: Option<&Text>)
        ensures
            match kill {
                Some(t) => self.model().kill == Some(t@),
                None => self.model().kill is None,
            },
    {
        self.state.kill_buffer()
    }

    /// The pattern remembered for repeat search.
    pub fn search_pattern(&self) -> (pattern: Option<&Text>)
        ensures
            match pattern {
                Some(t) => self.model().search == Some(t@),
                None => self.model().search is None,
            },
    {
        self.state.search_pattern()
    }

    /// Whether an earlier change can be undone.
    pub fn can_undo(&self) -> (can: bool)
        ensures
            can == (self.model().undo.len() > 0),
    {
        self.state.can_undo()
    }

    /// Whether an undone change can be reapplied.
    pub fn can_redo(&self) -> (can: bool)
        ensures
            can == (self.model().redo.len() > 0),
    {
        self.state.can_redo()
    }

    /// Apply one action to the session's line state.
    pub fn execute(&mut self, action: Action) -> (result: Result<CommandStep, Error>)
        requires
            old(self).wf(),
        ensures
            final(self).display() == old(self).display(),
            final(self).wf(),
            (final(self).model(), step_result_model(result)) == step(old(self).model(), action),
            forall|mode: KeymapMode| final(self).table(mode) == old(self).table(mode),
            final(self).configuration() == old(self).configuration(),
            final(self).committed_mode() == old(self).committed_mode(),
            final(self).active() == old(self).active(),
            final(self).pending_effect() == old(self).pending_effect(),
            final(self).issued_effects() == old(self).issued_effects(),
    {
        self.state.execute(action)
    }

    /// Where `count` repetitions of a motion lead from the cursor.
    pub fn motion_destination(&self, motion: Motion, count: usize) -> (result: Result<TextIndex, Error>)
        ensures
            match repeated_position_of(self.model(), motion, count) {
                Ok(position) => result matches Ok(index) && index@ == position,
                Err(error) => result == Err::<TextIndex, Error>(error),
            },
    {
        self.state.motion_destination(motion, count)
    }

    /// Replace a checked span of the line as one undoable edit.
    pub fn replace(&mut self, span: TextSpan, replacement: Text) -> (result: Result<(), Error>)
        requires
            old(self).wf(),
        ensures
            final(self).display() == old(self).display(),
            final(self).wf(),
            span@.1 <= old(self).model().line.len() ==> result is Ok && final(self).model() == edited(
                old(self).model(),
                span@.0,
                span@.1,
                replacement@,
            ),
            span@.1 > old(self).model().line.len() ==> result == Err::<(), Error>(
                Error::InvalidTextSpan { start: span@.0 as usize, end: span@.1 as usize, len: old(self).model().line.len() as usize },
            ) && final(self).model() == old(self).model(),
            forall|mode: KeymapMode| final(self).table(mode) == old(self).table(mode),
            final(self).configuration() == old(self).configuration(),
            final(self).committed_mode() == old(self).committed_mode(),
            final(self).active() == old(self).active(),
    {
        proof {
            use_type_invariant(&span);
            span.lemma_ordered();
        }
        match self.state.replace_at(&replacement, span.start().get(), span.end().get()) {
            Ok(_) => Ok(()),
            Err(error) => Err(error),
        }
    }

    /// Begin a fresh line, keeping the policy, bindings and registers.
    pub fn reset_line(&mut self)
        requires
            old(self).wf(),
        ensures
            final(self).display() == old(self).display(),
            final(self).wf(),
            final(self).model() == (LineModel {
                line: Seq::empty(),
                cursor: 0,
                mark: None,
                input_mode: InputMode::Insert,
                keymap_mode: initial_keymap(old(self).configuration().editing_mode),
                undo: Seq::empty(),
                redo: Seq::empty(),
                ..old(self).model()
            }),
            forall|mode: KeymapMode| final(self).table(mode) == old(self).table(mode),
            final(self).configuration() == old(self).configuration(),
            final(self).committed_mode() == old(self).committed_mode(),
            final(self).active() == old(self).active(),
    {
        self.state.reset_line(self.config);
    }

    /// Install or replace a binding in one keymap.
    pub fn bind(&mut self, mode: KeymapMode, sequence: KeySequence, binding: Binding) -> (previous: Option<Binding>)
        requires
            old(self).wf(),
        ensures
            final(self).display() == old(self).display(),
            final(self).wf(),
            final(self).model() == old(self).model(),
            final(self).table(mode) == old(self).table(mode).insert(sequence@, binding),
            forall|other: KeymapMode| other != mode ==> final(self).table(other) == old(self).table(other),
            previous == (if old(self).table(mode).contains_key(sequence@) {
                Some(old(self).table(mode)[sequence@])
            } else {
                None::<Binding>
            }),
            final(self).configuration() == old(self).configuration(),
            final(self).committed_mode() == old(self).committed_mode(),
            final(self).active() == old(self).active(),
    {
        self.state.bind(mode, sequence, binding)
    }

    /// Remove a binding from one keymap.
    pub fn unbind(&mut self, mode: KeymapMode, sequence: &KeySequence) -> (previous: Option<Binding>)
        requires
            old(self).wf(),
        ensures
            final(self).display() == old(self).display(),
            final(self).wf(),
            final(self).model() == old(self).model(),
            final(self).table(mode) == old(self).table(mode).remove(sequence@),
            forall|other: KeymapMode| other != mode ==> final(self).table(other) == old(self).table(other),
            previous == (if old(self).table(mode).contains_key(sequence@) {
                Some(old(self).table(mode)[sequence@])
            } else {
                None::<Binding>
            }),
            final(self).configuration() == old(self).configuration(),
            final(self).committed_mode() == old(self).committed_mode(),
            final(self).active() == old(self).active(),
    {
        self.state.unbind(mode, sequence)
    }

    /// Restore the built-in keymaps and select an editing family.
    pub fn reset_bindings(&mut self, mode: EditingMode)
        requires
            old(self).wf(),
        ensures
            final(self).display() == old(self).display(),
            final(self).wf(),
            final(self).model() == (LineModel { keymap_mode: initial_keymap(mode), ..old(self).model() }),
            final(self).configuration() == (EditorConfig { editing_mode: mode, ..old(self).configuration() }),
            final(self).committed_mode() == old(self).committed_mode(),
            final(self).active() == old(self).active(),
    {
        self.state.reset_bindings(mode);
        self.config = self.config.with_editing_mode(mode);
    }

    /// Remove every binding from one keymap.
    pub fn clear_bindings(&mut self, mode: KeymapMode)
        requires
            old(self).wf(),
        ensures
            final(self).display() == old(self).display(),
            final(self).wf(),
            final(self).model() == old(self).model(),
            final(self).table(mode) == Map::<Seq<TextUnit>, Binding>::empty(),
            forall|other: KeymapMode| other != mode ==> final(self).table(other) == old(self).table(other),
            final(self).configuration() == old(self).configuration(),
            final(self).committed_mode() == old(self).committed_mode(),
            final(self).active() == old(self).active(),
    {
        self.state.clear_bindings(mode);
    }

    /// The exact binding of a sequence in one keymap.
    pub fn binding(&self, mode: KeymapMode, sequence: &KeySequence) -> (found: Option<&Binding>)
        requires
            self.wf(),
        ensures
            match found {
                Some(b) => self.table(mode).contains_key(sequence@) && *b == self.table(mode)[sequence@],
                None => !self.table(mode).contains_key(sequence@),
            },
    {
        self.state.binding(mode, sequence)
    }

    /// Every binding of one keymap.
    pub fn bindings(&self, mode: KeymapMode) -> (entries: &[(KeySequence, Binding)])
        requires
            self.wf(),
        ensures
            forall|i: int| 0 <= i < entries@.len() ==> #[trigger] self.table(mode).contains_key(entries@[i].0@)
                && self.table(mode)[entries@[i].0@] == entries@[i].1,
            forall|k: Seq<TextUnit>| #[trigger] self.table(mode).contains_key(k) ==> exists|i: int|
                0 <= i < entries@.len() && #[trigger] entries@[i].0@ == k,
    {
        let entries = self.state.bindings(mode);
        assert forall|i: int| 0 <= i < entries@.len() implies #[trigger] self.table(mode).contains_key(entries@[i].0@)
            && self.table(mode)[entries@[i].0@] == entries@[i].1 by {
            assert(self.state.keymaps.table(mode).contains_key(entries@[i].0@));
        }
        entries
    }

    /// Match a sequence against the active keymap.
    pub fn key_binding(&self, sequence: &KeySequence) -> (result: KeyLookup)
        requires
            self.wf(),
        ensures
            lookup_result(self.table(self.model().keymap_mode), sequence@, result),
    {
        self.state.lookup(sequence)
    }

    /// The tty mode this editor has committed.
    pub fn terminal_mode(&self) -> (mode: TerminalMode)
        ensures
            mode == self.committed_mode(),
    {
        self.terminal_mode
    }

    /// Change the tty mode through the owned controller. A failure leaves
    /// the committed mode unchanged; asking for the committed mode changes
    /// nothing.
    pub fn set_terminal_mode(&mut self, mode: TerminalMode) -> (result: Result<(), std::io::Error>)
        ensures
            final(self).display() == old(self).display(),
            final(self).model() == old(self).model(),
            final(self).wf() == old(self).wf(),
            forall|m: KeymapMode| final(self).table(m) == old(self).table(m),
            final(self).configuration() == old(self).configuration(),
            final(self).active() == old(self).active(),
            final(self).pending_effect() == old(self).pending_effect(),
            final(self).issued_effects() == old(self).issued_effects(),
            mode == old(self).committed_mode() ==> result is Ok && final(self).committed_mode() == mode,
            !old(self).active() && mode != old(self).committed_mode() ==> result is Err,
            result is Ok ==> final(self).committed_mode() == mode,
            result is Err ==> final(self).committed_mode() == old(self).committed_mode(),
    {
        if mode == self.terminal_mode {
            return Ok(());
        }
        let changed = match &mut self.terminal {
            None => Err(inactive_terminal_error()),
            Some(terminal) => terminal.set_mode(mode),
        };
        match changed {
            Ok(()) => {
                self.terminal_mode = mode;
                Ok(())
            },
            Err(error) => Err(error),
        }
    }

    /// Apply a completion response when its query still names this line and
    /// cursor: no match changes nothing, one match is inserted with its
    /// suffix as one undoable edit, and several insert their common prefix
    /// when it is longer than the stem.
    pub fn apply_completion(&mut self, query: &CompletionQuery, candidates: CompletionCandidates) -> (result: Result<
        CompletionOutcome,
        Error,
    >)
        requires
            old(self).wf(),
        ensures
            final(self).display() == old(self).display(),
            final(self).wf(),
            forall|mode: KeymapMode| final(self).table(mode) == old(self).table(mode),
            final(self).configuration() == old(self).configuration(),
            final(self).committed_mode() == old(self).committed_mode(),
            final(self).active() == old(self).active(),
            !(old(self).model().line == query.line_view() && old(self).model().cursor == query.cursor_view()) ==> result
                == Err::<CompletionOutcome, Error>(Error::StaleCompletionResponse) && final(self).model() == old(
                self,
            ).model(),
            old(self).model().line == query.line_view() && old(self).model().cursor == query.cursor_view() ==> {
                let kept = matched(candidates@, query.stem_view());
                let text = completed_text(kept, query.stem_view(), query.quote_view(), query.separators_view());
                &&& result matches Ok(outcome) && outcome_agrees(outcome, kept, text, query.replacement_view())
                &&& final(self).model() == match text {
                    Some(t) => edited(old(self).model(), query.replacement_view().0, query.replacement_view().1, t),
                    None => old(self).model(),
                }
            },
    {
        proof {
            use_type_invariant(query);
            query.lemma_wf();
        }
        if !self.state.line.same_as(query.line()) || self.state.cursor.get() != query.cursor().get() {
            return Err(Error::StaleCompletionResponse);
        }
        let mut kept = completion::matching(candidates.as_slice(), query.stem());
        let span = query.replacement();
        proof {
            use_type_invariant(&span);
            span.lemma_ordered();
        }
        if kept.len() == 0 {
            return Ok(CompletionOutcome::NoMatch);
        }
        let ghost kv = completion::candidates_view(kept@);
        let ghost kept_before = kept@;
        if kept.len() == 1 {
            let candidate = match kept.pop() {
                Some(candidate) => candidate,
                None => {
                    return Ok(CompletionOutcome::NoMatch);
                },
            };
            let mut replacement = completion::encode(candidate.insertion(), query.quote(), query.separators(), true);
            match candidate.suffix() {
                Some(suffix) => replacement.extend_from(suffix.as_units()),
                None => {},
            }
            proof {
                assert(candidate == kept_before[0]);
                assert(candidate@ == kv[0]);
                assert(replacement@ == completed_text(kv, query.stem_view(), query.quote_view(), query.separators_view()).unwrap());
            }
            let _ = self.state.replace_at(&replacement, span.start().get(), span.end().get());
            let edit = CompletionEdit::new(span, replacement);
            return Ok(CompletionOutcome::Unique { edit, candidate });
        }
        let prefix = completion::common_prefix(kept.as_slice());
        let edit = if prefix.len() > query.stem().len() {
            let replacement = completion::encode(&prefix, query.quote(), query.separators(), false);
            let _ = self.state.replace_at(&replacement, span.start().get(), span.end().get());
            Some(CompletionEdit::new(span, replacement))
        } else {
            None
        };
        let set = CompletionCandidates::from_vec(kept);
        assert(set@ == kv);
        Ok(CompletionOutcome::Ambiguous { edit, candidates: set })
    }

    /// Suspend one host request. Fails while another request is pending or
    /// when no further sequence number can be issued.
    pub fn suspend<E: Effect>(&mut self, request: E) -> (result: Result<Suspension<E>, EffectStateError>)
        ensures
            final(self).model() == old(self).model(),
            final(self).display() == old(self).display(),
            final(self).wf() == old(self).wf(),
            forall|mode: KeymapMode| final(self).table(mode) == old(self).table(mode),
            final(self).configuration() == old(self).configuration(),
            final(self).committed_mode() == old(self).committed_mode(),
            final(self).active() == old(self).active(),
            old(self).pending_effect() is Some ==> (result matches Err(e) && e == EffectStateError::AlreadySuspended
                && final(self).pending_effect() == old(self).pending_effect() && final(self).issued_effects() == old(
                self,
            ).issued_effects()),
            old(self).pending_effect() is None && old(self).issued_effects() == u64::MAX ==> (result matches Err(e)
                && e == EffectStateError::SequenceExhausted && final(self).pending_effect() is None
                && final(self).issued_effects() == u64::MAX),
            old(self).pending_effect() is None && old(self).issued_effects() < u64::MAX ==> (result matches Ok(s)
                && s.issued() == old(self).issued_effects() + 1 && s.request_view() == request
                && final(self).pending_effect() == Some(s.issued()) && final(self).issued_effects() == s.issued()),
    {
        let sequence = match self.effects.issue() {
            Ok(sequence) => sequence,
            Err(error) => {
                return Err(error);
            },
        };
        Ok(Suspension::new(effect::share_owner(&self.effects.owner), sequence, request))
    }

    /// Accept the response to a suspension of this editor that is still the
    /// pending one, releasing it to the caller. A rejected response leaves
    /// the pending request in place.
    pub fn resume<E: Effect>(&mut self, suspension: &Suspension<E>, response: E::Response) -> (result: Result<
        E::Response,
        EffectStateError,
    >)
        ensures
            final(self).model() == old(self).model(),
            final(self).display() == old(self).display(),
            final(self).wf() == old(self).wf(),
            forall|mode: KeymapMode| final(self).table(mode) == old(self).table(mode),
            final(self).configuration() == old(self).configuration(),
            final(self).committed_mode() == old(self).committed_mode(),
            final(self).active() == old(self).active(),
            final(self).issued_effects() == old(self).issued_effects(),
            result matches Ok(r) ==> r == response && old(self).pending_effect() == Some(suspension.issued())
                && final(self).pending_effect() is None,
            result matches Err(e) ==> final(self).pending_effect() == old(self).pending_effect() && (e
                == EffectStateError::DifferentEditor || (e == EffectStateError::NoSuspendedEffect && old(
                self,
            ).pending_effect() is None) || (e == EffectStateError::StaleSuspension && (old(self).pending_effect()
                matches Some(p) && p != suspension.issued()))),
            old(self).pending_effect() == Some(suspension.issued()) ==> result is Ok || result == Err::<
                E::Response,
                EffectStateError,
            >(EffectStateError::DifferentEditor),
    {
        let same = effect::same_owner(&self.effects.owner, suspension.owner());
        match self.effects.settle(same, suspension.sequence()) {
            Ok(()) => Ok(response),
            Err(error) => Err(error),
        }
    }

    /// Insert host text at the cursor without an undo entry.
    pub fn insert_untracked(&mut self, text: Text) -> (result: Result<(), Error>)
        requires
            old(self).wf(),
        ensures
            final(self).display() == old(self).display(),
            final(self).wf(),
            result is Ok,
            final(self).model() == (LineModel {
                line: old(self).model().line.subrange(0, old(self).model().cursor as int) + text@
                    + old(self).model().line.subrange(old(self).model().cursor as int, old(self).model().line.len() as int),
                cursor: old(self).model().cursor + text@.len(),
                mark: adjusted_mark(old(self).model().mark, old(self).model().cursor, old(self).model().cursor, text@.len()),
                ..old(self).model()
            }),
            forall|mode: KeymapMode| final(self).table(mode) == old(self).table(mode),
            final(self).configuration() == old(self).configuration(),
            final(self).committed_mode() == old(self).committed_mode(),
            final(self).active() == old(self).active(),
    {
        self.state.insert_untracked(text)
    }

    /// Replace the whole line from a host snapshot without an undo entry,
    /// keeping the cursor and mark where the new line allows.
    pub fn replace_line_untracked(&mut self, line: Text) -> (result: Result<(), Error>)
        requires
            old(self).wf(),
        ensures
            final(self).display() == old(self).display(),
            final(self).wf(),
            result is Ok,
            final(self).model() == (LineModel {
                line: line@,
                cursor: motion::min_int(old(self).model().cursor as int, line@.len() as int) as nat,
                mark: match old(self).model().mark {
                    Some(k) => if k <= line@.len() { Some(k) } else { None },
                    None => None,
                },
                ..old(self).model()
            }),
            forall|mode: KeymapMode| final(self).table(mode) == old(self).table(mode),
            final(self).configuration() == old(self).configuration(),
            final(self).committed_mode() == old(self).committed_mode(),
            final(self).active() == old(self).active(),
    {
        self.state.replace_line_untracked(line)
    }

    /// Restore the terminal, reporting a failure, and end the session.
    pub fn finish(self) -> (result: Result<(), std::io::Error>)
        ensures
            !self.active() ==> result is Ok,
    {
        let mut editor = self;
        editor.restore_terminal()
    }

    /// Restore the terminal once; later calls do nothing.
    pub fn restore_terminal(&mut self) -> (result: Result<(), std::io::Error>)
        ensures
            final(self).display() == old(self).display(),
            !final(self).active(),
            !old(self).active() ==> result is Ok,
            final(self).model() == old(self).model(),
            final(self).wf() == old(self).wf(),
            forall|mode: KeymapMode| final(self).table(mode) == old(self).table(mode),
            final(self).configuration() == old(self).configuration(),
            final(self).committed_mode() == old(self).committed_mode(),
    {
        match self.terminal.take() {
            Some(mut terminal) => terminal.restore(),
            None => Ok(()),
        }
    }
    /// Install a terminal profile and screen size, keeping the rows the
    /// editor owns on the terminal unless their anchor was lost.
    pub fn configure_display(&mut self, profile: TerminalProfile, size: ScreenSize)
        requires
            old(self).wf(),
        ensures
            final(self).wf(),
            final(self).display() == Some(render::configured_spec(old(self).display(), profile@, size)),
            final(self).model() == old(self).model(),
            final(self).configuration() == old(self).configuration(),
            final(self).active() == old(self).active(),
    {
        self.renderer.configure(profile, size);
    }

    /// Resize the configured display; its rows are repaired by the next
    /// frame.
    pub fn resize_display(&mut self, size: ScreenSize) -> (result: Result<(), RenderError>)
        requires
            old(self).wf(),
        ensures
            final(self).wf(),
            match old(self).display() {
                None => result matches Err(RenderError::DisplayNotConfigured) && final(self).display() is None,
                Some(d) => result is Ok && final(self).display() == Some(render::resized_spec(d, size)),
            },
            final(self).model() == old(self).model(),
            final(self).committed_mode() == old(self).committed_mode(),
            final(self).pending_effect() == old(self).pending_effect(),
            final(self).issued_effects() == old(self).issued_effects(),
            final(self).configuration() == old(self).configuration(),
            final(self).active() == old(self).active(),
    {
        self.renderer.resize(size)
    }

    /// The profile driving the display.
    pub fn terminal_profile(&self) -> (profile: Option<&TerminalProfile>)
        requires
            self.wf(),
        ensures
            match self.display() {
                None => profile is None,
                Some(d) => profile matches Some(p) && p@ == d.profile,
            },
    {
        self.renderer.profile()
    }

    /// The image last committed.
    pub fn screen(&self) -> (screen: Option<&Screen>)
        requires
            self.wf(),
        ensures
            match self.display() {
                None => screen is None,
                Some(d) => screen matches Some(s) && s@ == (d.size, d.cells),
            },
    {
        self.renderer.screen()
    }

    /// The cursor on the image last committed.
    pub fn screen_cursor(&self) -> (cursor: Option<ScreenPosition>)
        requires
            self.wf(),
        ensures
            match self.display() {
                None => cursor is None,
                Some(d) => cursor == Some(d.cursor),
            },
    {
        self.renderer.cursor()
    }

    /// Plan the frame that shows the line and its cursor after the prompts;
    /// nothing is committed until `rendered` reports it sent.
    pub fn render_to(&self, left_prompt: &Prompt, right_prompt: Option<&Prompt>) -> (result: Result<
        Presentation,
        RenderError,
    >)
        requires
            self.wf(),
        ensures
            render::presents(
                self.display(),
                left_prompt@,
                right_view(right_prompt),
                self.model().line,
                self.model().cursor,
                result,
            ),
    {
        self.renderer.plan_present(left_prompt, right_prompt, &self.state.line, self.state.cursor)
    }

    /// Commit a frame planned by `render_to` once it was sent,
    /// `bytes_written` bytes in all.
    pub fn rendered(&mut self, presentation: Presentation, bytes_written: usize) -> (summary: RenderSummary)
        requires
            old(self).wf(),
            old(self).display() is Some,
            presentation.frame_spec().screen.wf(),
            presentation.frame_spec().screen@.0 == old(self).display()->0.size,
            presentation.frame_spec().rows@.len() <= old(self).display()->0.size@.0,
        ensures
            final(self).wf(),
            final(self).display() == Some(
                render::committed_spec(
                    old(self).display()->0,
                    presentation.frame_spec(),
                    presentation.region_spec(),
                ),
            ),
            summary.size_spec() == old(self).display()->0.size,
            summary.cursor_spec() == presentation.frame_spec().cursor,
            summary.rows_used_spec() == presentation.frame_spec().rows@.len(),
            summary.bytes_written_spec() == bytes_written,
            final(self).model() == old(self).model(),
    {
        self.renderer.commit_present(presentation, bytes_written)
    }

    /// Record that sending a frame planned by `render_to` failed.
    pub fn render_failed(&mut self, presentation: &Presentation)
        requires
            old(self).wf(),
            old(self).display() is Some,
        ensures
            final(self).wf(),
            final(self).display() == Some(render::failed_spec(old(self).display()->0, presentation.anchors_spec())),
            final(self).model() == old(self).model(),
    {
        self.renderer.present_failed(presentation)
    }

    /// Plan the steps that end the line below its region, echoing `echo`
    /// first; nothing is committed until `finished` reports them sent.
    pub fn finish_plan(&self, echo: Option<&render::FinishEcho>) -> (result: Result<render::FinishPlan, RenderError>)
        requires
            self.wf(),
        ensures
            render::finish_planned(self.display(), echo, result),
    {
        self.renderer.plan_finish(echo)
    }

    /// Commit an ended line once its steps were sent.
    pub fn finished(&mut self)
        requires
            old(self).wf(),
            old(self).display() is Some,
        ensures
            final(self).wf(),
            final(self).display() == Some(render::finished_spec(old(self).display()->0)),
            final(self).model() == old(self).model(),
    {
        self.renderer.commit_finish()
    }

    /// Record that sending the steps of a finish plan failed.
    pub fn finish_failed(&mut self, plan: &render::FinishPlan)
        requires
            old(self).wf(),
            old(self).display() is Some,
        ensures
            final(self).wf(),
            final(self).display() == Some(render::failed_spec(old(self).display()->0, plan.anchors_spec())),
            final(self).model() == old(self).model(),
    {
        self.renderer.finish_failed(plan)
    }

    /// The steps that sound the display's bell.
    pub fn beep(&self) -> (result: Result<Vec<Step>, RenderError>)
        requires
            self.wf(),
        ensures
            self.display() is None ==> result matches Err(RenderError::DisplayNotConfigured),
            self.display() is Some ==> (result matches Ok(steps) && render::steps_view(steps@) == seq![
                StepView::Emit(EmitView::Capability(CapabilityKind::Bell)),
            ]),
    {
        self.renderer.plan_beep()
    }
}

} // verus!
