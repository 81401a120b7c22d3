//! Editor-domain values: logical text, screen images, prompts, commands and
//! key bindings.

pub mod command;
pub mod command_effect;
pub mod keymap;
pub mod message;
pub mod prompt;
pub mod screen;
pub mod sequence;
pub mod terminal;
pub mod text;

pub use command::{
    Action, CommandName, DeleteTarget, Direction, EditTarget, KeymapMode, Motion, Outcome, Refresh, Signal,
    TextTransform, WordKind, YankPlacement,
};
pub use command_effect::{EffectCommand, HistorySearchCommand, HistorySearchRepetition};
pub use keymap::{Binding, KeyLookup, KeySequence};
pub use prompt::{Prompt, PromptPart, TerminalLiteral};
pub use screen::{Screen, ScreenCell, ScreenGlyph, ScreenPosition, ScreenSize};
pub use sequence::{
    ArgumentCommand, CharacterSearch, CharacterSearchLanding, CommandSequence, RepeatCount,
    SearchRepetition, ViInsertPlacement, ViOperator, ViSequence, ViSubstitution,
};
pub use terminal::TerminalMode;
pub use text::{NonScalarWide, Text, TextIndex, TextSpan, TextUnit};

use vstd::prelude::*;

verus! {

/// The editing command family selected for a session.
#[derive(Debug, Clone, Copy, PartialEq, Eq, Hash, Structural)]
pub enum EditingMode {
    /// Emacs-style bindings and editing behaviour.
    Emacs,
    /// Vi insert and command modes.
    Vi,
}

/// How newly entered text changes the current line.
#[derive(Debug, Clone, Copy, PartialEq, Eq, Hash, Structural)]
pub enum InputMode {
    /// Insert before the text at the cursor.
    Insert,
    /// Replace existing text until the mode changes.
    Replace,
    /// Replace one logical unit, then return to insertion.
    ReplaceOnce,
}

/// Whether the editor manages interactive terminal signals.
#[derive(Debug, Clone, Copy, PartialEq, Eq, Hash, Structural)]
pub enum SignalPolicy {
    /// Install and restore the editor's signal handling.
    Handle,
    /// Leave signal handling entirely to the host.
    Ignore,
}

/// When input is returned to the host.
#[derive(Debug, Clone, Copy, PartialEq, Eq, Hash, Structural)]
pub enum Buffering {
    /// Accumulate input until a complete line is accepted.
    Line,
    /// Yield after each input unit.
    Character,
}

impl Default for EditingMode {
    fn default() -> (mode: Self)
        ensures
            mode == EditingMode::Emacs,
    {
        EditingMode::Emacs
    }
}

impl Default for InputMode {
    fn default() -> (mode: Self)
        ensures
            mode == InputMode::Insert,
    {
        InputMode::Insert
    }
}

impl Default for SignalPolicy {
    fn default() -> (policy: Self)
        ensures
            policy == SignalPolicy::Handle,
    {
        SignalPolicy::Handle
    }
}

impl Default for Buffering {
    fn default() -> (buffering: Self)
        ensures
            buffering == Buffering::Line,
    {
        Buffering::Line
    }
}

/// Typed construction policy for a native editor session.
#[derive(Debug, Clone, Copy, PartialEq, Eq, Hash, Structural)]
pub struct EditorConfig {
    pub editing_mode: EditingMode,
    pub signal_policy: SignalPolicy,
    pub buffering: Buffering,
}

impl Default for EditorConfig {
    fn default() -> (config: Self)
        ensures
            config == (EditorConfig {
                editing_mode: EditingMode::Emacs,
                signal_policy: SignalPolicy::Handle,
                buffering: Buffering::Line,
            }),
    {
        EditorConfig {
            editing_mode: EditingMode::Emacs,
            signal_policy: SignalPolicy::Handle,
            buffering: Buffering::Line,
        }
    }
}

impl EditorConfig {
    /// Select the editing command family.
    pub fn with_editing_mode(self, mode: EditingMode) -> (config: Self)
        ensures
            config == (EditorConfig { editing_mode: mode, ..self }),
    {
        EditorConfig { editing_mode: mode, ..self }
    }

    /// Select how the session cooperates with host signal handling.
    pub fn with_signal_policy(self, policy: SignalPolicy) -> (config: Self)
        ensures
            config == (EditorConfig { signal_policy: policy, ..self }),
    {
        EditorConfig { signal_policy: policy, ..self }
    }

    /// Select line or character-at-a-time delivery.
    pub fn with_buffering(self, buffering: Buffering) -> (config: Self)
        ensures
            config == (EditorConfig { buffering, ..self }),
    {
        EditorConfig { buffering, ..self }
    }

    /// The configured command family.
    pub fn editing_mode(self) -> (mode: EditingMode)
        ensures
            mode == self.editing_mode,
    {
        self.editing_mode
    }

    /// The configured signal policy.
    pub fn signal_policy(self) -> (policy: SignalPolicy)
        ensures
            policy == self.signal_policy,
    {
        self.signal_policy
    }

    /// The configured delivery policy.
    pub fn buffering(self) -> (buffering: Buffering)
        ensures
            buffering == self.buffering,
    {
        self.buffering
    }
}

/// A domain failure with all relevant values preserved.
#[derive(Debug, Clone, Copy, PartialEq, Eq, Structural)]
pub enum Error {
    EmptyCommandName,
    EmptyKeySequence,
    ScalarWideValue(u32),
    TextIndexOutOfBounds { index: usize, len: usize },
    InvalidTextSpan { start: usize, end: usize, len: usize },
    InvalidScreenSize { rows: usize, columns: usize },
    ScreenTooLarge { rows: usize, columns: usize },
    ScreenPositionOutOfBounds { row: usize, column: usize, rows: usize, columns: usize },
    MarkNotSet,
    TextLengthOverflow,
    EmptySearchPattern,
    SearchPatternNotSet,
    StaleCompletionResponse,
}

} // verus!
