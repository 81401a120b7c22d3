//! The resumable read driver: input preparation, decoding, dispatch and
//! completion as a sequence of host steps. The driver owns its state
//! between steps (the live step number, the repeat argument, a pending
//! meta prefix or quoted insertion, the keys of an unfinished sequence, an
//! ambiguous binding waiting for more keys, queued and decoded input, and
//! queued notifications); each call answers one host step (terminal size,
//! prompt, display, input, signal, history record) and returns the next.

use vstd::prelude::*;

use crate::domain::{
    Action, ArgumentCommand, Binding, Buffering, SignalPolicy, Direction, EditTarget, Error, InputMode, KeymapMode, Motion, Outcome, Prompt, PromptPart, Refresh,
    CommandSequence, CharacterSearch, SearchRepetition, ViInsertPlacement, ViSequence, KeySequence, KeyLookup, ScreenSize, Signal, TerminalMode, Text, TextUnit,
};
use super::decode::{Decoder, DecoderView};
use super::commands::{character_destination, landing_position, occurrence_after, action_refreshes_cursor, action_repeats_with_count, decimal_digit, decimal_digit_spec};
use super::effect::{
    Effect, EffectResult, EffectStateError, HistoryRecordEffect, HostFailure, PromptEffect, PromptSide,
    ReadEffect, ResizeEffect, SignalEffect, Suspension,
};
use super::keymap::has_longer_key;
use super::effect::ReadOutcome;
use super::line::{edited, outcome_model, repeated_position_of, step, CommandStep, LineModel, OutcomeModel, StepModel};
use super::render::RenderError;
use super::{Editor, TerminalControl};

verus! {

/// A read-driver failure that leaves the editor safe to finish.
#[derive(Debug)]
pub enum DriverError {
    /// A read was started while an earlier step was still live.
    Busy,
    /// A pending effect or display belongs to another driver.
    DifferentDriver,
    /// The supplied step is no longer the active step of this driver.
    StaleStep,
    /// No further unique driver step can be represented.
    SequenceExhausted,
    /// A timeout was returned for a normal blocking input request.
    UnexpectedTimeout,
    /// A repeat count exceeded the configured work bound.
    WorkLimitExceeded { limit: usize },
    /// A recorded replay did not match its typed continuation.
    InvalidSequenceState,
    /// A typed editor-domain operation failed.
    Editor(Error),
    /// The editor rejected an effect suspension or response.
    Effect(EffectStateError),
    /// A required host operation failed.
    Host(HostFailure),
    /// A transactional terminal-mode change failed.
    Terminal(std::io::Error),
    /// Display planning or emission failed.
    Render(RenderError),
}

/// Why a read stopped without accepting text or reaching the end of input.
#[derive(Debug, Clone, Copy, PartialEq, Eq, Hash)]
pub enum ReadInterrupt {
    /// The host cancelled its blocking read.
    Cancelled,
    /// The host reported an interruption without a particular signal.
    Host,
    /// A terminal signal interrupted this read.
    Signal(Signal),
}

/// A completed read.
#[derive(Debug, Clone, PartialEq, Eq, Hash)]
pub enum ReadResult {
    /// The line editor accepted this line.
    Accepted(Text),
    /// Character buffering returned one input unit.
    Character(TextUnit),
    /// Command buffering dispatched one complete command.
    Command,
    /// The input source ended.
    EndOfInput,
    /// Input was cancelled or interrupted.
    Interrupted(ReadInterrupt),
}

/// The repeat argument collected so far: typed digit by digit, or the
/// product of a multiply command.
#[derive(Debug, Clone, Copy, PartialEq, Eq, Structural)]
pub enum RepeatArgument {
    Explicit(usize),
    Multiplied(usize),
}

impl RepeatArgument {
    /// The count the argument stands for.
    pub open spec fn count(self) -> nat {
        match self {
            RepeatArgument::Explicit(v) => v as nat,
            RepeatArgument::Multiplied(v) => v as nat,
        }
    }

    /// The count the argument stands for.
    pub fn value(self) -> (value: usize)
        ensures
            value == self.count(),
    {
        match self {
            RepeatArgument::Explicit(v) => v,
            RepeatArgument::Multiplied(v) => v,
        }
    }
}

/// The host request a live step is waiting on.
#[derive(Debug, Clone, Copy, PartialEq, Eq, Structural)]
pub enum EffectKind {
    PromptLeft,
    PromptRight,
    Resize,
    Read,
    History,
    HistorySearch,
    HistoryLine,
    HistoryWord,
    Alias,
    EditorCommand,
    ExternalEdit,
    RecordHistory,
    Completion,
    UserCommand,
    Signal,
}

/// Where the driver stands between calls.
#[derive(Debug, Clone, Copy, PartialEq, Eq, Structural)]
pub enum Phase {
    /// No read is in progress.
    Idle,
    /// The driver is working inside one call.
    Advancing,
    /// A host request issued under `step` awaits its response.
    Effect { step: u64, kind: EffectKind },
    /// A display issued under `step` awaits being shown.
    Display { step: u64 },
}

/// The terminal output a display step asks for.
#[derive(Debug, Clone, Copy, PartialEq, Eq, Structural)]
pub enum DisplayKind {
    /// Rebuild and emit the prompt, line and cursor.
    Refresh,
    /// Emit only the configured notification.
    Beep,
    /// Refresh first, then emit this many notifications.
    RefreshAndBeep(usize),
    /// Emit the accepted-line break before completing the read.
    FinishLine,
    /// Echo the invoking unit before completing at end of input.
    Echo(TextUnit),
}

/// What an argument command asks of the dispatcher next.
#[derive(Debug, Clone, Copy, PartialEq, Eq, Structural)]
pub enum ArgumentStep {
    /// No argument is active: insert the invoking unit as ordinary text.
    InsertInvoking,
    /// The invoking unit is no digit: a notification was queued.
    Beep,
    /// The argument changed: read the next unit.
    Continue,
}

/// The driver's state by value.
pub ghost struct DriverModel {
    pub next_step: u64,
    pub phase: Phase,
    pub work_limit: nat,
    pub repeat: Option<RepeatArgument>,
    pub meta_next: bool,
    pub keys: Seq<TextUnit>,
    pub beeps: nat,
    pub left: Seq<PromptPart>,
    pub right: Option<Seq<PromptPart>>,
    pub display_kind: DisplayKind,
    pub completion: Option<ReadResult>,
    pub replay: Seq<TextUnit>,
    pub input: DecoderView,
    pub eof: bool,
    pub ambiguous: Option<(Binding, nat, TextUnit)>,
    pub expanded: nat,
    pub quoted: Option<nat>,
    pub resize_signal: Option<Signal>,
    pub searching: Option<(CharacterSearch, nat)>,
    pub last_search: Option<(CharacterSearch, TextUnit)>,
}

/// The count an optional argument stands for, or `absent` without one.
pub open spec fn count_or(repeat: Option<RepeatArgument>, absent: nat) -> nat {
    match repeat {
        Some(a) => a.count(),
        None => absent,
    }
}

/// The state with every per-command field dropped (keys, argument, meta
/// prefix, notifications, prompts, a pending quoted insertion) but the
/// input not yet processed kept.
pub open spec fn cleared_keeping_input(m: DriverModel) -> DriverModel {
    DriverModel {
        keys: Seq::empty(),
        repeat: None,
        meta_next: false,
        beeps: 0,
        left: Seq::empty(),
        right: None,
        completion: None,
        ambiguous: None,
        expanded: 0,
        quoted: None,
        resize_signal: None,
        searching: None,
        ..m
    }
}

/// The state with every per-command field and all unprocessed input
/// dropped.
pub open spec fn cleared(m: DriverModel) -> DriverModel {
    DriverModel {
        replay: Seq::empty(),
        input: DecoderView { pending: Seq::empty(), ready: Seq::empty() },
        eof: false,
        ..cleared_keeping_input(m)
    }
}

/// The state after a read ends: idle, and cleared; under line buffering
/// the unprocessed input goes too.
pub open spec fn ended(m: DriverModel, line_buffered: bool) -> DriverModel {
    if line_buffered {
        failed(m)
    } else {
        DriverModel { phase: Phase::Idle, ..cleared_keeping_input(m) }
    }
}

/// A state that failed: idle and cleared.
pub open spec fn failed(m: DriverModel) -> DriverModel {
    DriverModel { phase: Phase::Idle, ..cleared(m) }
}

/// Issuing the next step number: the successor of the last one, or
/// exhaustion, which leaves the driver idle and cleared.
pub open spec fn issued(m: DriverModel) -> (DriverModel, Result<u64, ()>) {
    if m.next_step == u64::MAX {
        (failed(m), Err(()))
    } else {
        (DriverModel { next_step: (m.next_step + 1) as u64, ..m }, Ok((m.next_step + 1) as u64))
    }
}

/// The argument after appending decimal digit `digit`, when it stays
/// within the work limit.
pub open spec fn appended(m: DriverModel, digit: nat) -> Option<nat> {
    let v = count_or(m.repeat, 0) * 10 + digit;
    if v <= m.work_limit {
        Some(v)
    } else {
        None
    }
}

/// The digit a unit adds to a Vi command-mode count: an ASCII digit typed
/// at the start of a key sequence, where a leading zero is no count.
pub open spec fn counted_digit(m: DriverModel, mode: KeymapMode, unit: TextUnit) -> Option<nat> {
    match unit {
        TextUnit::Scalar(c) => if mode == KeymapMode::ViCommand && m.keys.len() == 0 && '0' <= c <= '9' && !(c
            == '0' && m.repeat is None) {
            Some((c as nat - '0' as nat) as nat)
        } else {
            None
        },
        _ => None,
    }
}

/// The unit a meta prefix turns `unit` into: its high bit set, for a
/// scalar below 256 or a raw byte.
pub open spec fn meta_of(unit: TextUnit) -> TextUnit {
    match unit {
        TextUnit::Scalar(c) => if (c as u32) < 0x100 {
            TextUnit::Scalar(((c as u32) | 0x80u32) as char)
        } else {
            unit
        },
        TextUnit::RawByte(b) => TextUnit::RawByte(b | 0x80u8),
        _ => unit,
    }
}

/// A queued notification more, saturating at the largest count.
pub open spec fn beeped(m: DriverModel) -> DriverModel {
    DriverModel { beeps: if m.beeps < usize::MAX { m.beeps + 1 } else { m.beeps }, ..m }
}

/// An argument command applied to a state: the state after it and what
/// the dispatcher does next, or the failure, after which the driver is
/// idle and cleared.
pub open spec fn argument_applied(m: DriverModel, command: ArgumentCommand, invoking: TextUnit) -> (
    DriverModel,
    Result<ArgumentStep, nat>,
) {
    match command {
        ArgumentCommand::Multiply(factor) => {
            let count = count_or(m.repeat, 1) * factor@;
            if count <= m.work_limit {
                (
                    DriverModel { repeat: Some(RepeatArgument::Multiplied(count as usize)), ..m },
                    Ok(ArgumentStep::Continue),
                )
            } else {
                (failed(m), Err(m.work_limit))
            }
        },
        _ => match decimal_digit_spec(invoking) {
            None => (beeped(m), Ok(ArgumentStep::Beep)),
            Some(digit) => if command is DigitOrInsert && m.repeat is None {
                (m, Ok(ArgumentStep::InsertInvoking))
            } else if command is DigitOrInsert && m.repeat matches Some(RepeatArgument::Multiplied(_)) {
                (DriverModel { repeat: Some(RepeatArgument::Explicit(digit)), ..m }, Ok(ArgumentStep::Continue))
            } else {
                match appended(m, digit as nat) {
                    Some(v) => (
                        DriverModel { repeat: Some(RepeatArgument::Explicit(v as usize)), ..m },
                        Ok(ArgumentStep::Continue),
                    ),
                    None => (failed(m), Err(m.work_limit)),
                }
            },
        },
    }
}

/// The resumable read driver for one editor. It stores no streams or
/// callbacks: each step is answered by a call.
pub struct ReadDriver {
    next_step: u64,
    phase: Phase,
    work_limit: usize,
    repeat_argument: Option<RepeatArgument>,
    meta_next: bool,
    key_sequence: Vec<TextUnit>,
    pending_beeps: usize,
    left_prompt: Prompt,
    right_prompt: Option<Prompt>,
    display_kind: DisplayKind,
    completion: Option<ReadResult>,
    decoder: Decoder,
    replay: Vec<TextUnit>,
    eof_pending: bool,
    ambiguous: Option<(Binding, usize, TextUnit)>,
    expanded_units: usize,
    quoted: Option<usize>,
    signal_after_resize: Option<Signal>,
    character_search: Option<(CharacterSearch, usize)>,
    last_character_search: Option<(CharacterSearch, TextUnit)>,
}

impl View for ReadDriver {
    type V = DriverModel;

    closed spec fn view(&self) -> DriverModel {
        DriverModel {
            next_step: self.next_step,
            phase: self.phase,
            work_limit: self.work_limit as nat,
            repeat: self.repeat_argument,
            meta_next: self.meta_next,
            keys: self.key_sequence@,
            beeps: self.pending_beeps as nat,
            left: self.left_prompt@,
            right: match self.right_prompt {
                Some(p) => Some(p@),
                None => None,
            },
            display_kind: self.display_kind,
            completion: self.completion,
            replay: self.replay@,
            input: self.decoder@,
            eof: self.eof_pending,
            ambiguous: match self.ambiguous {
                Some((b, n, u)) => Some((b, n as nat, u)),
                None => None,
            },
            expanded: self.expanded_units as nat,
            quoted: match self.quoted {
                Some(n) => Some(n as nat),
                None => None,
            },
            resize_signal: self.signal_after_resize,
            searching: match self.character_search {
                Some((search, n)) => Some((search, n as nat)),
                None => None,
            },
            last_search: self.last_character_search,
        }
    }
}

impl ReadDriver {
    /// Whether the driver's state is one it can be in: a positive work
    /// limit.
    pub open spec fn wf(&self) -> bool {
        &&& self@.work_limit > 0
        &&& self@.ambiguous matches Some((_, p, _)) ==> 1 <= p <= self@.keys.len()
    }

    /// A driver that is idle, has issued no step, and bounds repeat counts
    /// by 4096.
    pub fn new() -> (driver: Self)
        ensures
            driver.wf(),
            driver@ == (DriverModel {
                next_step: 0,
                phase: Phase::Idle,
                work_limit: 4096,
                repeat: None,
                meta_next: false,
                keys: Seq::empty(),
                beeps: 0,
                left: Seq::empty(),
                right: None,
                display_kind: DisplayKind::Refresh,
                completion: None,
                replay: Seq::empty(),
                input: DecoderView { pending: Seq::empty(), ready: Seq::empty() },
                eof: false,
                ambiguous: None,
                expanded: 0,
                quoted: None,
                resize_signal: None,
                searching: None,
                last_search: None,
            }),
    {
        ReadDriver {
            next_step: 0,
            phase: Phase::Idle,
            work_limit: 4096,
            repeat_argument: None,
            meta_next: false,
            key_sequence: Vec::new(),
            pending_beeps: 0,
            left_prompt: Prompt::new(),
            right_prompt: None,
            display_kind: DisplayKind::Refresh,
            completion: None,
            decoder: Decoder::new(),
            replay: Vec::new(),
            eof_pending: false,
            ambiguous: None,
            expanded_units: 0,
            quoted: None,
            signal_after_resize: None,
            character_search: None,
            last_character_search: None,
        }
    }

    /// Bound repeat counts by `limit`.
    pub fn with_work_limit(self, limit: usize) -> (driver: Self)
        requires
            limit > 0,
        ensures
            self.wf() ==> driver.wf(),
            driver@.work_limit > 0,
            driver@ == (DriverModel { work_limit: limit as nat, ..self@ }),
    {
        ReadDriver { work_limit: limit, ..self }
    }

    /// The bound on repeat counts.
    pub fn work_limit(&self) -> (limit: usize)
        ensures
            limit == self@.work_limit,
    {
        self.work_limit
    }

    /// Where the driver stands.
    pub fn phase(&self) -> (phase: Phase)
        ensures
            phase == self@.phase,
    {
        self.phase
    }

    /// The repeat argument collected so far.
    pub fn repeat_argument(&self) -> (repeat: Option<RepeatArgument>)
        ensures
            repeat == self@.repeat,
    {
        self.repeat_argument
    }

    /// Whether the next unit carries a meta prefix.
    pub fn meta_pending(&self) -> (pending: bool)
        ensures
            pending == self@.meta_next,
    {
        self.meta_next
    }

    /// Ask for a meta prefix on the next unit.
    pub fn set_meta_next(&mut self)
        ensures
            final(self)@ == (DriverModel { meta_next: true, ..old(self)@ }),
    {
        self.meta_next = true;
    }

    /// Add a unit to the key sequence being looked up.
    pub fn push_key(&mut self, unit: TextUnit)
        ensures
            final(self)@ == (DriverModel { keys: old(self)@.keys.push(unit), ..old(self)@ }),
    {
        self.key_sequence.push(unit);
    }

    /// The keys of the unfinished sequence.
    pub fn key_sequence(&self) -> (keys: &[TextUnit])
        ensures
            keys@ == self@.keys,
    {
        self.key_sequence.as_slice()
    }

    /// Queue one notification, saturating at the largest count.
    fn queue_beep(&mut self)
        ensures
            final(self)@ == beeped(old(self)@),
    {
        if self.pending_beeps < usize::MAX {
            self.pending_beeps = self.pending_beeps + 1;
        }
    }

    /// Take the queued notifications, leaving none.
    pub fn take_beeps(&mut self) -> (beeps: usize)
        ensures
            beeps == old(self)@.beeps,
            final(self)@ == (DriverModel { beeps: 0, ..old(self)@ }),
    {
        let beeps = self.pending_beeps;
        self.pending_beeps = 0;
        beeps
    }

    /// Drop every per-command field, and unless `preserve_input` the
    /// unprocessed input too.
    fn clear_transient(&mut self, preserve_input: bool)
        ensures
            preserve_input ==> final(self)@ == cleared_keeping_input(old(self)@),
            !preserve_input ==> final(self)@ == cleared(old(self)@),
    {
        if !preserve_input {
            self.decoder.clear();
            self.eof_pending = false;
            self.replay = Vec::new();
        }
        self.ambiguous = None;
        self.expanded_units = 0;
        self.quoted = None;
        self.signal_after_resize = None;
        self.character_search = None;
        self.key_sequence = Vec::new();
        self.repeat_argument = None;
        self.meta_next = false;
        self.pending_beeps = 0;
        self.left_prompt = Prompt::new();
        self.right_prompt = None;
        self.completion = None;
    }

    /// Leave the driver idle and cleared after a failure.
    fn reset(&mut self)
        ensures
            final(self)@ == failed(old(self)@),
    {
        self.phase = Phase::Idle;
        self.clear_transient(false);
    }

    /// Issue the next step number; exhaustion leaves the driver idle and
    /// cleared.
    fn issue_step(&mut self) -> (result: Result<u64, DriverError>)
        ensures
            final(self)@ == issued(old(self)@).0,
            issued(old(self)@).1 matches Ok(s) ==> result matches Ok(t) && t == s,
            issued(old(self)@).1 is Err ==> result matches Err(DriverError::SequenceExhausted),
    {
        if self.next_step == u64::MAX {
            self.reset();
            return Err(DriverError::SequenceExhausted);
        }
        self.next_step = self.next_step + 1;
        Ok(self.next_step)
    }

    /// Whether `step` names the host request the driver waits on, of kind
    /// `kind`; a mismatch is a stale step and changes nothing.
    fn check_effect(&self, step: u64, kind: EffectKind) -> (result: Result<(), DriverError>)
        ensures
            result is Ok <==> self@.phase == (Phase::Effect { step, kind }),
            result is Err ==> result matches Err(DriverError::StaleStep),
    {
        if self.phase == (Phase::Effect { step, kind }) {
            Ok(())
        } else {
            Err(DriverError::StaleStep)
        }
    }

    /// Whether `step` names the display the driver waits on.
    fn check_display(&self, step: u64) -> (result: Result<(), DriverError>)
        ensures
            result is Ok <==> self@.phase == (Phase::Display { step }),
            result is Err ==> result matches Err(DriverError::StaleStep),
    {
        if self.phase == (Phase::Display { step }) {
            Ok(())
        } else {
            Err(DriverError::StaleStep)
        }
    }

    /// Append a decimal digit to the argument; one that would exceed the
    /// work limit is refused and changes nothing.
    pub fn append_argument_digit(&mut self, digit: usize) -> (result: Result<(), DriverError>)
        requires
            digit <= 9,
        ensures
            appended(old(self)@, digit as nat) matches Some(v) ==> result is Ok && final(self)@ == (DriverModel {
                repeat: Some(RepeatArgument::Explicit(v as usize)),
                ..old(self)@
            }),
            appended(old(self)@, digit as nat) is None ==> final(self)@ == old(self)@ && (result matches Err(
                DriverError::WorkLimitExceeded { limit },
            ) && limit == old(self)@.work_limit),
    {
        let base: usize = match self.repeat_argument {
            Some(a) => a.value(),
            None => 0,
        };
        let count = match base.checked_mul(10) {
            Some(tens) => tens.checked_add(digit),
            None => None,
        };
        match count {
            Some(c) => {
                if c <= self.work_limit {
                    self.repeat_argument = Some(RepeatArgument::Explicit(c));
                    Ok(())
                } else {
                    Err(DriverError::WorkLimitExceeded { limit: self.work_limit })
                }
            },
            None => Err(DriverError::WorkLimitExceeded { limit: self.work_limit }),
        }
    }

    /// Take a Vi command-mode count digit: an ASCII digit at the start of a
    /// key sequence, where `0` only extends an argument already begun.
    /// Reports whether the unit was taken; a digit that would exceed the
    /// work limit is refused and changes nothing.
    pub fn capture_count(&mut self, mode: KeymapMode, unit: TextUnit) -> (result: Result<bool, DriverError>)
        ensures
            counted_digit(old(self)@, mode, unit) is None ==> result == Ok::<bool, DriverError>(false)
                && final(self)@ == old(self)@,
            counted_digit(old(self)@, mode, unit) matches Some(d) ==> ({
                &&& appended(old(self)@, d) matches Some(v) ==> result == Ok::<bool, DriverError>(true)
                    && final(self)@ == (DriverModel {
                    repeat: Some(RepeatArgument::Explicit(v as usize)),
                    ..old(self)@
                })
                &&& appended(old(self)@, d) is None ==> final(self)@ == old(self)@ && (result matches Err(
                    DriverError::WorkLimitExceeded { limit },
                ) && limit == old(self)@.work_limit)
            }),
    {
        let character = match unit {
            TextUnit::Scalar(c) => c,
            _ => {
                return Ok(false);
            },
        };
        if mode != KeymapMode::ViCommand || self.key_sequence.len() != 0 {
            return Ok(false);
        }
        if !('0' <= character && character <= '9') {
            return Ok(false);
        }
        if character == '0' && self.repeat_argument.is_none() {
            return Ok(false);
        }
        let digit = (character as u32 - '0' as u32) as usize;
        match self.append_argument_digit(digit) {
            Ok(()) => Ok(true),
            Err(error) => Err(error),
        }
    }

    /// The count for a command: the explicit one, else the argument (which
    /// is taken), else one.
    pub fn take_repeat(&mut self, explicit: Option<usize>) -> (count: usize)
        ensures
            explicit matches Some(n) ==> count == n && final(self)@ == old(self)@,
            explicit is None ==> count == count_or(old(self)@.repeat, 1) && final(self)@ == (DriverModel {
                repeat: None,
                ..old(self)@
            }),
    {
        match explicit {
            Some(n) => n,
            None => {
                let count = match self.repeat_argument {
                    Some(a) => a.value(),
                    None => 1,
                };
                self.repeat_argument = None;
                count
            },
        }
    }

    /// The count for a command that treats no count specially: the
    /// explicit one, else the argument (which is taken), else none.
    pub fn take_optional_repeat(&mut self, explicit: Option<usize>) -> (count: Option<usize>)
        ensures
            explicit is Some ==> count == explicit && final(self)@ == old(self)@,
            explicit is None ==> final(self)@ == (DriverModel { repeat: None, ..old(self)@ }) && (match old(
                self,
            )@.repeat {
                Some(a) => count matches Some(n) && n == a.count(),
                None => count is None,
            }),
    {
        match explicit {
            Some(n) => Some(n),
            None => {
                let taken = self.repeat_argument;
                self.repeat_argument = None;
                match taken {
                    Some(a) => Some(a.value()),
                    None => None,
                }
            },
        }
    }

    /// Apply a pending meta prefix to `unit`, which consumes it: a scalar
    /// below 256 or a raw byte gets its high bit set; other units pass
    /// unchanged.
    pub fn take_meta_unit(&mut self, unit: TextUnit) -> (result: TextUnit)
        ensures
            final(self)@ == (DriverModel { meta_next: false, ..old(self)@ }),
            !old(self)@.meta_next ==> result == unit,
            old(self)@.meta_next ==> result == meta_of(unit),
    {
        let meta = self.meta_next;
        self.meta_next = false;
        if !meta {
            return unit;
        }
        match unit {
            TextUnit::Scalar(c) => {
                let v = c as u32;
                if v < 0x100 {
                    let w = v | 0x80u32;
                    assert(w < 0x100) by (bit_vector)
                        requires
                            v < 0x100,
                            w == v | 0x80u32,
                    ;
                    TextUnit::from_wide(w)
                } else {
                    unit
                }
            },
            TextUnit::RawByte(b) => TextUnit::RawByte(b | 0x80u8),
            other => other,
        }
    }

    /// Apply an argument command typed with `invoking`: without an active
    /// argument a digit-or-insert command inserts its unit; a non-digit
    /// queues a notification; a digit starts or extends the argument (or
    /// restarts one that came from a multiply); a multiply scales the
    /// argument, or one. A count past the work limit fails the read.
    pub fn apply_argument(&mut self, command: ArgumentCommand, invoking: TextUnit) -> (result: Result<
        ArgumentStep,
        DriverError,
    >)
        ensures
            final(self)@ == argument_applied(old(self)@, command, invoking).0,
            argument_applied(old(self)@, command, invoking).1 matches Ok(s) ==> result matches Ok(t) && t == s,
            argument_applied(old(self)@, command, invoking).1 matches Err(limit) ==> result matches Err(
                DriverError::WorkLimitExceeded { limit: l },
            ) && l == limit,
    {
        match command {
            ArgumentCommand::Multiply(factor) => {
                let base: usize = match self.repeat_argument {
                    Some(a) => a.value(),
                    None => 1,
                };
                let f = factor.get();
                match base.checked_mul(f) {
                    Some(count) => {
                        if count <= self.work_limit {
                            self.repeat_argument = Some(RepeatArgument::Multiplied(count));
                            return Ok(ArgumentStep::Continue);
                        }
                    },
                    None => {},
                }
                let limit = self.work_limit;
                self.reset();
                Err(DriverError::WorkLimitExceeded { limit })
            },
            _ => {
                let digit = match decimal_digit(invoking) {
                    Some(d) => d,
                    None => {
                        self.queue_beep();
                        return Ok(ArgumentStep::Beep);
                    },
                };
                let digit_or_insert = match command {
                    ArgumentCommand::DigitOrInsert => true,
                    _ => false,
                };
                if digit_or_insert && self.repeat_argument.is_none() {
                    return Ok(ArgumentStep::InsertInvoking);
                }
                let multiplied = match self.repeat_argument {
                    Some(RepeatArgument::Multiplied(_)) => true,
                    _ => false,
                };
                if digit_or_insert && multiplied {
                    self.repeat_argument = Some(RepeatArgument::Explicit(digit));
                    return Ok(ArgumentStep::Continue);
                }
                let limit = self.work_limit;
                match self.append_argument_digit(digit) {
                    Ok(()) => Ok(ArgumentStep::Continue),
                    Err(_) => {
                        self.reset();
                        Err(DriverError::WorkLimitExceeded { limit })
                    },
                }
            },
        }
    }
}


/// A host request tied to one live driver step.
pub struct Pending<E: Effect> {
    step: u64,
    suspension: Suspension<E>,
}

impl<E: Effect> Pending<E> {
    /// The driver step the request was issued under.
    pub closed spec fn step_view(&self) -> u64 {
        self.step
    }

    /// The editor sequence number of the suspension it carries.
    pub closed spec fn effect_issued(&self) -> u64 {
        self.suspension.issued()
    }

    /// The request by value.
    pub closed spec fn request_view(&self) -> E {
        self.suspension.request_view()
    }

    /// The request, while editor and driver stay free to borrow.
    pub fn request(&self) -> (request: &E)
        ensures
            *request == self.request_view(),
    {
        self.suspension.request()
    }
}

/// A display request: the output to emit and the prompts to emit it with.
pub struct Display {
    step: u64,
    kind: DisplayKind,
    left: Prompt,
    right: Option<Prompt>,
}

impl Display {
    /// The driver step the display was issued under.
    pub closed spec fn step_view(&self) -> u64 {
        self.step
    }

    /// What it emits, by value.
    pub closed spec fn kind_view(&self) -> DisplayKind {
        self.kind
    }

    /// The prompt before the line, by value.
    pub closed spec fn left_view(&self) -> Seq<PromptPart> {
        self.left@
    }

    /// The prompt at the right edge, by value.
    pub closed spec fn right_view(&self) -> Option<Seq<PromptPart>> {
        match self.right {
            Some(p) => Some(p@),
            None => None,
        }
    }

    /// What to emit.
    pub fn kind(&self) -> (kind: DisplayKind)
        ensures
            kind == self.kind_view(),
    {
        self.kind
    }

    /// The prompt before the line.
    pub fn left(&self) -> (left: &Prompt)
        ensures
            left@ == self.left_view(),
    {
        &self.left
    }

    /// The prompt at the right edge, when there is one.
    pub fn right(&self) -> (right: Option<&Prompt>)
        ensures
            match self.right_view() {
                Some(p) => right matches Some(q) && q@ == p,
                None => right is None,
            },
    {
        match &self.right {
            Some(p) => Some(p),
            None => None,
        }
    }
}

/// The next operation a read needs from its caller.
pub enum ReadStep {
    /// Produce a left or right prompt.
    Prompt(Pending<PromptEffect>),
    /// Report the terminal dimensions.
    Resize(Pending<ResizeEffect>),
    /// Supply input.
    Read(Pending<ReadEffect>),
    /// Keep an accepted line in the host history.
    RecordHistory(Pending<HistoryRecordEffect>),
    /// Propagate a signal after the terminal changed mode for it.
    Signal(Pending<SignalEffect>),
    /// Emit terminal output, then report how it went.
    Display(Display),
    /// The read is complete and the driver is reusable.
    Complete(ReadResult),
}

/// Requesting a host effect of kind `kind` from an editor whose pending
/// request and last issued number are `pending` and `issued`: a fresh step
/// number, then the editor's suspension; a refusal by the editor leaves
/// the driver idle.
pub open spec fn requested(m: DriverModel, pending: Option<u64>, issued: u64, kind: EffectKind) -> (
    DriverModel,
    Result<u64, DriverError>,
) {
    if m.next_step == u64::MAX {
        (failed(m), Err(DriverError::SequenceExhausted))
    } else {
        let n = (m.next_step + 1) as u64;
        if pending is Some {
            (
                DriverModel { next_step: n, phase: Phase::Idle, ..m },
                Err(DriverError::Effect(EffectStateError::AlreadySuspended)),
            )
        } else if issued == u64::MAX {
            (
                DriverModel { next_step: n, phase: Phase::Idle, ..m },
                Err(DriverError::Effect(EffectStateError::SequenceExhausted)),
            )
        } else {
            (DriverModel { next_step: n, phase: Phase::Effect { step: n, kind }, ..m }, Ok(n))
        }
    }
}

/// Issuing a display of the queued kind with the collected prompts, which
/// it takes: a fresh step number, or exhaustion.
pub open spec fn display_made(m: DriverModel) -> (DriverModel, Result<u64, DriverError>) {
    if m.next_step == u64::MAX {
        (failed(m), Err(DriverError::SequenceExhausted))
    } else {
        let n = (m.next_step + 1) as u64;
        (
            DriverModel { next_step: n, phase: Phase::Display { step: n }, left: Seq::empty(), right: None, ..m },
            Ok(n),
        )
    }
}

/// The state once a request was answered: back to work, in the same
/// state otherwise.
pub open spec fn advancing(m: DriverModel) -> DriverModel {
    DriverModel { phase: Phase::Advancing, ..m }
}

/// The editor parts a driver step keeps: line state, display, keymaps,
/// policy and validity.
pub open spec fn editor_kept<T: TerminalControl>(before: Editor<T>, after: Editor<T>) -> bool {
    &&& after.model() == before.model()
    &&& after.display() == before.display()
    &&& after.configuration() == before.configuration()
    &&& after.wf() == before.wf()
    &&& after.active() == before.active()
    &&& forall|mode: KeymapMode| after.table(mode) == before.table(mode)
}

impl ReadDriver {
    /// Issue a host request under a fresh step.
    fn request_effect<T: TerminalControl, E: Effect>(&mut self, editor: &mut Editor<T>, effect: E, kind: EffectKind) -> (result:
        Result<Pending<E>, DriverError>)
        ensures
            final(self)@ == requested(old(self)@, old(editor).pending_effect(), old(editor).issued_effects(), kind).0,
            requested(old(self)@, old(editor).pending_effect(), old(editor).issued_effects(), kind).1 matches Ok(s)
                ==> (result matches Ok(p) && p.step_view() == s && p.request_view() == effect && p.effect_issued()
                == old(editor).issued_effects() + 1 && final(editor).pending_effect() == Some(p.effect_issued())
                && final(editor).issued_effects() == p.effect_issued()),
            requested(old(self)@, old(editor).pending_effect(), old(editor).issued_effects(), kind).1 matches Err(
                x,
            ) ==> (result matches Err(y) && y == x && final(editor).pending_effect() == old(editor).pending_effect()
                && final(editor).issued_effects() == old(editor).issued_effects()),
            editor_kept(*old(editor), *final(editor)),
            final(editor).committed_mode() == old(editor).committed_mode(),
    {
        let step = match self.issue_step() {
            Ok(step) => step,
            Err(error) => {
                return Err(error);
            },
        };
        match editor.suspend(effect) {
            Ok(suspension) => {
                self.phase = Phase::Effect { step, kind };
                Ok(Pending { step, suspension })
            },
            Err(error) => {
                self.phase = Phase::Idle;
                Err(DriverError::Effect(error))
            },
        }
    }

    /// Issue a display of the queued kind, handing it the prompts.
    fn make_display(&mut self) -> (result: Result<Display, DriverError>)
        ensures
            final(self)@ == display_made(old(self)@).0,
            display_made(old(self)@).1 matches Ok(s) ==> (result matches Ok(d) && d.step_view() == s && d.kind_view()
                == old(self)@.display_kind && d.left_view() == old(self)@.left && d.right_view() == old(
                self,
            )@.right),
            display_made(old(self)@).1 matches Err(x) ==> (result matches Err(y) && y == x),
    {
        let step = match self.issue_step() {
            Ok(step) => step,
            Err(error) => {
                return Err(error);
            },
        };
        self.phase = Phase::Display { step };
        let mut left = Prompt::new();
        std::mem::swap(&mut left, &mut self.left_prompt);
        let right = self.right_prompt.take();
        Ok(Display { step, kind: self.display_kind, left, right })
    }

    /// Fail the read: the driver becomes idle and cleared, and the
    /// terminal is asked, at best effort, to return to cooked mode.
    fn fail<T: TerminalControl>(&mut self, editor: &mut Editor<T>, error: DriverError) -> (returned: DriverError)
        ensures
            returned == error,
            final(self)@ == failed(old(self)@),
            cooked_or_kept(*old(editor), *final(editor)),
            editor_kept(*old(editor), *final(editor)),
            final(editor).pending_effect() == old(editor).pending_effect(),
            final(editor).issued_effects() == old(editor).issued_effects(),
    {
        self.reset();
        let _ = editor.set_terminal_mode(TerminalMode::Cooked);
        error
    }

    /// Complete the read with `outcome`. Under line buffering the terminal
    /// returns to cooked mode first, and a refusal fails the read; either
    /// way the driver becomes idle and cleared, keeping unprocessed input
    /// only when not line-buffered.
    fn complete<T: TerminalControl>(&mut self, editor: &mut Editor<T>, outcome: ReadResult) -> (result: Result<
        ReadStep,
        DriverError,
    >)
        ensures
            settled_step(result, final(self)@),
            final(self)@ == ended(old(self)@, old(editor).configuration().buffering == Buffering::Line),
            editor_kept(*old(editor), *final(editor)),
            final(editor).pending_effect() == old(editor).pending_effect(),
            final(editor).issued_effects() == old(editor).issued_effects(),
            old(editor).configuration().buffering != Buffering::Line ==> final(editor).committed_mode() == old(
                editor,
            ).committed_mode(),
            old(editor).configuration().buffering != Buffering::Line || final(editor).committed_mode()
                == TerminalMode::Cooked ==> (result matches Ok(ReadStep::Complete(r)) && r == outcome),
            old(editor).configuration().buffering == Buffering::Line && final(editor).committed_mode()
                != TerminalMode::Cooked ==> result matches Err(DriverError::Terminal(_)),
            old(editor).committed_mode() == TerminalMode::Cooked ==> result is Ok,
    {
        let buffering = editor.config().buffering();
        if buffering == Buffering::Line {
            match editor.set_terminal_mode(TerminalMode::Cooked) {
                Ok(()) => {},
                Err(error) => {
                    self.reset();
                    return Err(DriverError::Terminal(error));
                },
            }
        }
        self.phase = Phase::Idle;
        self.clear_transient(buffering != Buffering::Line);
        Ok(ReadStep::Complete(outcome))
    }

    /// Start reading the editor's current line: refused while a read is
    /// live; fails without a configured display; puts the terminal in
    /// editing mode (a refusal changes nothing of the driver); then drops
    /// the per-command state and asks the host for the terminal size.
    pub fn begin<T: TerminalControl>(&mut self, editor: &mut Editor<T>) -> (result: Result<ReadStep, DriverError>)
        requires
            old(editor).wf(),
        ensures
            editor_kept(*old(editor), *final(editor)),
            old(self)@.phase != Phase::Idle ==> (result matches Err(DriverError::Busy) && final(self)@ == old(self)@
                && final(editor).committed_mode() == old(editor).committed_mode()
                && final(editor).pending_effect() == old(editor).pending_effect()
                && final(editor).issued_effects() == old(editor).issued_effects()),
            old(self)@.phase == Phase::Idle && old(editor).display() is None ==> (result matches Err(
                DriverError::Render(RenderError::DisplayNotConfigured),
            ) && final(self)@ == failed(old(self)@) && cooked_or_kept(*old(editor), *final(editor)) && final(editor).pending_effect() == old(editor).pending_effect()),
            old(self)@.phase == Phase::Idle && old(editor).display() is Some && final(editor).committed_mode()
                != TerminalMode::Editing ==> (result matches Err(DriverError::Terminal(_)) && final(self)@ == old(
                self,
            )@ && final(editor).committed_mode() == old(editor).committed_mode()),
            old(self)@.phase == Phase::Idle && old(editor).display() is Some && old(editor).committed_mode()
                == TerminalMode::Editing ==> final(editor).committed_mode() == TerminalMode::Editing,
            old(self)@.phase == Phase::Idle && old(editor).display() is Some && final(editor).committed_mode()
                == TerminalMode::Editing ==> ({
                let (n, r) = requested(
                    advancing(
                        if old(editor).configuration().buffering == Buffering::Line {
                            cleared(old(self)@)
                        } else {
                            cleared_keeping_input(old(self)@)
                        },
                    ),
                    old(editor).pending_effect(),
                    old(editor).issued_effects(),
                    EffectKind::Resize,
                );
                &&& final(self)@ == n
                &&& r matches Ok(s) ==> (result matches Ok(ReadStep::Resize(p)) && p.step_view() == s
                    && p.effect_issued() == old(editor).issued_effects() + 1 && final(editor).pending_effect()
                    == Some(p.effect_issued()))
                &&& r matches Err(x) ==> (result matches Err(y) && y == x)
            }),
    {
        if self.phase != Phase::Idle {
            return Err(DriverError::Busy);
        }
        if editor.terminal_profile().is_none() {
            let error = DriverError::Render(RenderError::DisplayNotConfigured);
            return Err(self.fail(editor, error));
        }
        match editor.set_terminal_mode(TerminalMode::Editing) {
            Ok(()) => {},
            Err(error) => {
                return Err(DriverError::Terminal(error));
            },
        }
        let buffering = editor.config().buffering();
        self.clear_transient(buffering != Buffering::Line);
        self.phase = Phase::Advancing;
        match self.request_effect(editor, ResizeEffect, EffectKind::Resize) {
            Ok(pending) => Ok(ReadStep::Resize(pending)),
            Err(error) => Err(error),
        }
    }

    /// Accept the response to the host request of kind `kind` that the
    /// driver waits on.
    fn accept<T: TerminalControl, E: Effect>(
        &mut self,
        editor: &mut Editor<T>,
        pending: &Pending<E>,
        kind: EffectKind,
        response: E::Response,
    ) -> (result: Result<E::Response, DriverError>)
        ensures
            editor_kept(*old(editor), *final(editor)),
            final(editor).committed_mode() == old(editor).committed_mode(),
            final(editor).issued_effects() == old(editor).issued_effects(),
            old(self)@.phase != (Phase::Effect { step: pending.step_view(), kind }) ==> (result matches Err(
                DriverError::StaleStep,
            ) && final(self)@ == old(self)@ && final(editor).pending_effect() == old(editor).pending_effect()),
            old(self)@.phase == (Phase::Effect { step: pending.step_view(), kind }) && old(editor).pending_effect()
                != Some(pending.effect_issued()) ==> (result matches Err(DriverError::Effect(_)) && final(self)@
                == old(self)@ && final(editor).pending_effect() == old(editor).pending_effect()),
            old(self)@.phase == (Phase::Effect { step: pending.step_view(), kind }) && old(editor).pending_effect()
                == Some(pending.effect_issued()) ==> ((result matches Err(DriverError::Effect(e)) && e
                == EffectStateError::DifferentEditor && final(self)@ == old(self)@ && final(editor).pending_effect()
                == old(editor).pending_effect()) || (result matches Ok(r) && r == response && final(self)@
                == advancing(old(self)@) && final(editor).pending_effect() is None)),
    {
        match self.check_effect(pending.step, kind) {
            Ok(()) => {},
            Err(error) => {
                return Err(error);
            },
        }
        match editor.resume(&pending.suspension, response) {
            Ok(response) => {
                self.phase = Phase::Advancing;
                Ok(response)
            },
            Err(error) => Err(DriverError::Effect(error)),
        }
    }

    /// Queue a display of `kind`: a refresh first asks for the left
    /// prompt; other kinds go without prompts.
    fn schedule_display<T: TerminalControl>(&mut self, editor: &mut Editor<T>, kind: DisplayKind) -> (result: Result<
        ReadStep,
        DriverError,
    >)
        ensures
            settled_step(result, final(self)@),
            editor_kept(*old(editor), *final(editor)),
            final(editor).committed_mode() == old(editor).committed_mode(),
            ({
                let m = DriverModel { display_kind: kind, ..old(self)@ };
                if kind is Refresh || kind is RefreshAndBeep {
                    prompt_requested(
                        m,
                        old(editor).pending_effect(),
                        old(editor).issued_effects(),
                        *final(editor),
                        PromptSide::Left,
                        final(self)@,
                        result,
                    )
                } else {
                    display_issued(DriverModel { left: Seq::empty(), right: None, ..m }, final(self)@, result)
                        && final(editor).pending_effect() == old(editor).pending_effect()
                        && final(editor).issued_effects() == old(editor).issued_effects()
                }
            }),
    {
        self.display_kind = kind;
        match kind {
            DisplayKind::Refresh | DisplayKind::RefreshAndBeep(_) => self.request_prompt(editor, PromptSide::Left),
            _ => {
                self.left_prompt = Prompt::new();
                self.right_prompt = None;
                match self.make_display() {
                    Ok(display) => Ok(ReadStep::Display(display)),
                    Err(error) => Err(error),
                }
            },
        }
    }

    /// Ask the host for the prompt on `side`.
    fn request_prompt<T: TerminalControl>(&mut self, editor: &mut Editor<T>, side: PromptSide) -> (result: Result<
        ReadStep,
        DriverError,
    >)
        ensures
            settled_step(result, final(self)@),
            editor_kept(*old(editor), *final(editor)),
            final(editor).committed_mode() == old(editor).committed_mode(),
            prompt_requested(
                old(self)@,
                old(editor).pending_effect(),
                old(editor).issued_effects(),
                *final(editor),
                side,
                final(self)@,
                result,
            ),
    {
        let kind = match side {
            PromptSide::Left => EffectKind::PromptLeft,
            PromptSide::Right => EffectKind::PromptRight,
        };
        match self.request_effect(editor, PromptEffect { side }, kind) {
            Ok(pending) => Ok(ReadStep::Prompt(pending)),
            Err(error) => Err(error),
        }
    }

    /// Continue after the host reported the terminal size: a size resizes
    /// the display, an unavailable size keeps it, and then the prompts
    /// for a refresh are asked for; an interruption completes the read and
    /// any other failure fails it.
    pub fn resume_resize<T: TerminalControl>(
        &mut self,
        editor: &mut Editor<T>,
        pending: &Pending<ResizeEffect>,
        response: EffectResult<ScreenSize>,
    ) -> (result: Result<ReadStep, DriverError>)
        requires
            old(editor).wf(),
        ensures
            final(editor).model() == old(editor).model(),
            final(editor).configuration() == old(editor).configuration(),
            final(editor).wf(),
            old(self)@.phase != (Phase::Effect { step: pending.step_view(), kind: EffectKind::Resize }) ==> (
            result matches Err(DriverError::StaleStep) && final(self)@ == old(self)@),
            old(self)@.phase == (Phase::Effect { step: pending.step_view(), kind: EffectKind::Resize }) && old(
                editor,
            ).pending_effect() != Some(pending.effect_issued()) ==> (result matches Err(DriverError::Effect(_))
                && final(self)@ == old(self)@),
            old(self)@.phase == (Phase::Effect { step: pending.step_view(), kind: EffectKind::Resize }) && old(
                editor,
            ).pending_effect() == Some(pending.effect_issued()) ==> ((result matches Err(DriverError::Effect(e))
                && e == EffectStateError::DifferentEditor && final(self)@ == old(self)@) || resize_answered(
                advancing(old(self)@),
                *old(editor),
                *final(editor),
                response,
                final(self)@,
                result,
            )),
    {
        let response = match self.accept(editor, pending, EffectKind::Resize, response) {
            Ok(response) => response,
            Err(error) => {
                return Err(error);
            },
        };
        match response {
            Ok(size) => {
                match editor.resize_display(size) {
                    Ok(()) => {},
                    Err(error) => {
                        return Err(self.fail(editor, DriverError::Render(error)));
                    },
                }
            },
            Err(HostFailure::Unavailable) => {},
            Err(HostFailure::Interrupted) => {
                return self.complete(editor, ReadResult::Interrupted(ReadInterrupt::Host));
            },
            Err(error) => {
                return Err(self.fail(editor, DriverError::Host(error)));
            },
        }
        match self.signal_after_resize.take() {
            Some(signal) => match self.request_effect(editor, SignalEffect { signal }, EffectKind::Signal) {
                Ok(pending) => Ok(ReadStep::Signal(pending)),
                Err(error) => Err(error),
            },
            None => self.schedule_display(editor, DisplayKind::Refresh),
        }
    }

    /// Continue after the host produced a prompt: a missing or cancelled
    /// prompt counts as empty; the left prompt is followed by a request for
    /// the right one, and the right one (dropped when empty) completes the
    /// display. An interruption completes the read and a failure fails it.
    pub fn resume_prompt<T: TerminalControl>(
        &mut self,
        editor: &mut Editor<T>,
        pending: &Pending<PromptEffect>,
        response: EffectResult<Prompt>,
    ) -> (result: Result<ReadStep, DriverError>)
        ensures
            editor_kept(*old(editor), *final(editor)),
            ({
                let kind = prompt_kind(pending.request_view().side);
                &&& old(self)@.phase != (Phase::Effect { step: pending.step_view(), kind }) ==> (result matches Err(
                    DriverError::StaleStep,
                ) && final(self)@ == old(self)@)
                &&& old(self)@.phase == (Phase::Effect { step: pending.step_view(), kind }) && old(
                    editor,
                ).pending_effect() != Some(pending.effect_issued()) ==> (result matches Err(DriverError::Effect(_))
                    && final(self)@ == old(self)@)
                &&& old(self)@.phase == (Phase::Effect { step: pending.step_view(), kind }) && old(
                    editor,
                ).pending_effect() == Some(pending.effect_issued()) ==> ((result matches Err(
                    DriverError::Effect(e),
                ) && e == EffectStateError::DifferentEditor && final(self)@ == old(self)@) || prompt_answered(
                    advancing(old(self)@),
                    *old(editor),
                    *final(editor),
                    pending.request_view().side,
                    response,
                    final(self)@,
                    result,
                ))
            }),
    {
        let side = pending.request().side;
        let kind = match side {
            PromptSide::Left => EffectKind::PromptLeft,
            PromptSide::Right => EffectKind::PromptRight,
        };
        let response = match self.accept(editor, pending, kind, response) {
            Ok(response) => response,
            Err(error) => {
                return Err(error);
            },
        };
        let prompt = match response {
            Ok(prompt) => prompt,
            Err(HostFailure::Unavailable) | Err(HostFailure::Cancelled) => Prompt::new(),
            Err(HostFailure::Interrupted) => {
                return self.complete(editor, ReadResult::Interrupted(ReadInterrupt::Host));
            },
            Err(error) => {
                return Err(self.fail(editor, DriverError::Host(error)));
            },
        };
        match side {
            PromptSide::Left => {
                self.left_prompt = prompt;
                self.request_prompt(editor, PromptSide::Right)
            },
            PromptSide::Right => {
                self.right_prompt = if prompt.is_empty() {
                    None
                } else {
                    Some(prompt)
                };
                match self.make_display() {
                    Ok(display) => Ok(ReadStep::Display(display)),
                    Err(error) => Err(error),
                }
            },
        }
    }

    /// Continue after the caller emitted `display`, reporting how the
    /// emission went: a failure fails the read; otherwise the host is asked
    /// for input, for a key-sequence continuation while keys are pending.
    pub fn display<T: TerminalControl>(
        &mut self,
        editor: &mut Editor<T>,
        display: &Display,
        emitted: Result<(), RenderError>,
    ) -> (result: Result<ReadStep, DriverError>)
        requires
            old(editor).wf(),
            old(self).wf(),
        ensures
            final(editor).wf(),
            final(editor).display() == old(editor).display(),
            final(editor).configuration() == old(editor).configuration(),
            old(self)@.phase != (Phase::Display { step: display.step_view() }) ==> (result matches Err(
                DriverError::StaleStep,
            ) && final(self)@ == old(self)@ && final(editor).committed_mode() == old(editor).committed_mode()
                && final(editor).pending_effect() == old(editor).pending_effect()),
            old(self)@.phase == (Phase::Display { step: display.step_view() }) && emitted is Err ==> (result matches Err(
                DriverError::Render(_),
            ) && final(self)@ == failed(old(self)@) && cooked_or_kept(*old(editor), *final(editor))),
            old(self)@.phase == (Phase::Display { step: display.step_view() }) && emitted is Ok && old(
                self,
            )@.completion is Some ==> completed(
                DriverModel { completion: None, ..advancing(old(self)@) },
                *old(editor),
                *final(editor),
                old(self)@.completion->0,
                final(self)@,
                result,
            ),
            old(self)@.phase == (Phase::Display { step: display.step_view() }) && emitted is Ok && old(
                self,
            )@.completion is None ==> continued(final(self)@, *final(editor), result),
            old(self)@.phase == (Phase::Display { step: display.step_view() }) && emitted is Ok && old(
                self,
            )@.completion is None && available(old(self)@) == 0 && !old(self)@.eof ==> input_requested(
                advancing(old(self)@),
                *old(editor),
                *final(editor),
                final(self)@,
                result,
            ),
    {
        match self.check_display(display.step) {
            Ok(()) => {},
            Err(error) => {
                return Err(error);
            },
        }
        match emitted {
            Ok(()) => {},
            Err(error) => {
                return Err(self.fail(editor, DriverError::Render(error)));
            },
        }
        self.phase = Phase::Advancing;
        match self.completion.take() {
            Some(outcome) => {
                return self.complete(editor, outcome);
            },
            None => {},
        }
        self.advance(editor)
    }
}

impl ReadDriver {
    /// Queue a refresh after a command, carrying the queued notifications.
    fn schedule_command_display<T: TerminalControl>(&mut self, editor: &mut Editor<T>) -> (result: Result<
        ReadStep,
        DriverError,
    >)
        ensures
            settled_step(result, final(self)@),
            editor_kept(*old(editor), *final(editor)),
            final(editor).committed_mode() == old(editor).committed_mode(),
            command_displayed(
                old(self)@,
                old(editor).pending_effect(),
                old(editor).issued_effects(),
                *final(editor),
                final(self)@,
                result,
            ),
    {
        let beeps = self.take_beeps();
        let kind = if beeps != 0 {
            DisplayKind::RefreshAndBeep(beeps)
        } else {
            DisplayKind::Refresh
        };
        self.schedule_display(editor, kind)
    }

    /// In Vi command mode the cursor rests on a unit: one past the end of
    /// a non-empty line moves back onto its last unit.
    fn clamp_vi_command_cursor<T: TerminalControl>(&mut self, editor: &mut Editor<T>)
        requires
            old(editor).wf(),
        ensures
            final(self)@ == old(self)@,
            final(editor).wf(),
            final(editor).model() == clamped(old(editor).model()),
            final(editor).display() == old(editor).display(),
            final(editor).configuration() == old(editor).configuration(),
            final(editor).active() == old(editor).active(),
            final(editor).committed_mode() == old(editor).committed_mode(),
            final(editor).pending_effect() == old(editor).pending_effect(),
            final(editor).issued_effects() == old(editor).issued_effects(),
            forall|mode: KeymapMode| final(editor).table(mode) == old(editor).table(mode),
    {
        proof {
            editor.lemma_cursor_in_line();
        }
        let len = editor.line().len();
        if editor.keymap_mode() != KeymapMode::ViCommand || len == 0 || editor.cursor().get() < len {
            return;
        }
        let destination = editor.line().index_within(len - 1);
        let _ = editor.execute(Action::Move(Motion::Absolute(destination)));
    }

    /// Apply a repeated action `count` times: stop at an accepted line or
    /// the end of input, queue a notification for each beep an action
    /// asks for, and then refresh (Vi command mode keeping the cursor on
    /// the line after an action that moves it), record an accepted line,
    /// complete at the end of input, or echo the invoking unit first when
    /// a delete-or-end-of-input ended the input. A failed action fails the
    /// read.
    #[verifier::rlimit(40)]
    fn continue_repetition<T: TerminalControl>(
        &mut self,
        editor: &mut Editor<T>,
        action: Action,
        invoking: TextUnit,
        count: usize,
    ) -> (result: Result<ReadStep, DriverError>)
        requires
            old(editor).wf(),
            count >= 1,
            local_action(action),
        ensures
            settled_step(result, final(self)@),
            final(editor).wf(),
            final(editor).display() == old(editor).display(),
            final(editor).configuration() == old(editor).configuration(),
            repetition_finished(
                old(self)@,
                *old(editor),
                *final(editor),
                action,
                invoking,
                count as nat,
                final(self)@,
                result,
            ),
    {
        let echoes = match action {
            Action::DeleteOrEndOfInput => true,
            _ => false,
        };
        let refreshes = action_refreshes_cursor(&action);
        let ghost m0 = editor.model();
        let ghost d0 = self@;
        let ghost e0 = *editor;
        let mut remaining = count;
        let mut outcome: Outcome;
        loop
            invariant_except_break
                repeated(editor.model(), action, remaining as nat, self@.beeps) == repeated(
                    m0,
                    action,
                    count as nat,
                    d0.beeps,
                ),
            invariant
                e0 == *old(editor),
                m0 == old(editor).model(),
                d0 == old(self)@,
                editor.wf(),
                1 <= remaining <= count,
                local_action(action),
                self@ == (DriverModel { beeps: self@.beeps, ..d0 }),
                editor_kept_but_line(e0, *editor),
                editor.committed_mode() == e0.committed_mode(),
                editor.pending_effect() == e0.pending_effect(),
                editor.issued_effects() == e0.issued_effects(),
                echoes == (action is DeleteOrEndOfInput),
                refreshes == action_refreshes(action),
            ensures
                editor.wf(),
                editor_kept_but_line(e0, *editor),
                editor.committed_mode() == e0.committed_mode(),
                editor.pending_effect() == e0.pending_effect(),
                editor.issued_effects() == e0.issued_effects(),
                repeated(m0, action, count as nat, d0.beeps) == (editor.model(), Ok::<
                    (OutcomeModel, nat),
                    Error,
                >((outcome_model(outcome), self@.beeps))),
                self@ == (DriverModel { beeps: self@.beeps, ..d0 }),
            decreases remaining,
        {
            let this = copy_action(&action);
            proof {
                lemma_same_action_same_step(editor.model(), action, this);
            }
            let ghost before = editor.model();
            let ghost beeps_before = self@.beeps;
            let stepped = editor.execute(this);
            match stepped {
                Err(error) => {
                    let error = self.fail(editor, DriverError::Editor(error));
                    return Err(error);
                },
                Ok(CommandStep::Applied(o)) => {
                    let terminal = match &o {
                        Outcome::Accepted(_) | Outcome::EndOfInput => true,
                        _ => false,
                    };
                    if terminal {
                        outcome = o;
                        break;
                    }
                    match &o {
                        Outcome::Refresh(Refresh::Beep) => self.queue_beep(),
                        _ => {},
                    }
                    if remaining == 1 {
                        outcome = o;
                        break;
                    }
                    remaining = remaining - 1;
                },
                Ok(_) => {
                    proof {
                        lemma_local_action_applies(before, action);
                    }
                    return Err(DriverError::InvalidSequenceState);
                },
            }
        }
        let ghost m_end = editor.model();
        let ghost b_end = self@.beeps;
        let end_of_input = match &outcome {
            Outcome::EndOfInput => true,
            _ => false,
        };
        if echoes && end_of_input {
            self.completion = Some(ReadResult::EndOfInput);
            return self.schedule_display(editor, DisplayKind::Echo(invoking));
        }
        match outcome {
            Outcome::Accepted(line) => {
                match self.request_effect(editor, HistoryRecordEffect { line }, EffectKind::RecordHistory) {
                    Ok(pending) => Ok(ReadStep::RecordHistory(pending)),
                    Err(error) => Err(error),
                }
            },
            Outcome::EndOfInput => self.complete(editor, ReadResult::EndOfInput),
            _ => {
                if refreshes {
                    self.clamp_vi_command_cursor(editor);
                }
                self.schedule_command_display(editor)
            },
        }
    }
}

impl ReadDriver {
    /// Note what a local action's outcome asks of the display: a beep is
    /// queued.
    fn note_outcome(&mut self, outcome: &Outcome)
        ensures
            final(self)@ == (DriverModel { beeps: noted(old(self)@.beeps, outcome_model(*outcome)), ..old(self)@ }),
    {
        match outcome {
            Outcome::Refresh(Refresh::Beep) => self.queue_beep(),
            _ => {},
        }
    }

    /// Move by a counted motion in one step: a motion that cannot move
    /// beeps, and a Vi command-mode move to the right stops on the last
    /// unit.
    fn dispatch_counted_move<T: TerminalControl>(&mut self, editor: &mut Editor<T>, motion: Motion, repeat: usize) -> (result:
        Result<ReadStep, DriverError>)
        requires
            old(editor).wf(),
        ensures
            settled_step(result, final(self)@),
            final(editor).wf(),
            editor_kept_but_line(*old(editor), *final(editor)),
            local_finished(
                old(self)@,
                *old(editor),
                *final(editor),
                counted_move(old(editor).model(), motion, repeat, old(self)@.beeps),
                final(self)@,
                result,
            ),
    {
        proof {
            editor.lemma_cursor_in_line();
        }
        let origin = editor.cursor();
        let len = editor.line().len();
        let rightward = match motion {
            Motion::Character(Direction::Next) => true,
            Motion::Word { direction: Direction::Next, .. } => true,
            _ => false,
        };
        let boundary = editor.keymap_mode() == KeymapMode::ViCommand && rightward && len != 0 && origin.get() >= len
            - 1;
        let destination = if boundary {
            origin
        } else {
            match editor.motion_destination(motion, repeat) {
                Ok(destination) => destination,
                Err(error) => {
                    return Err(self.fail(editor, DriverError::Editor(error)));
                },
            }
        };
        let beeps_for_stay = match motion {
            Motion::Character(_) | Motion::Word { .. } | Motion::Line(_) => true,
            _ => false,
        };
        if destination.get() == origin.get() && beeps_for_stay {
            self.queue_beep();
        } else {
            match editor.execute(Action::Move(Motion::Absolute(destination))) {
                Ok(CommandStep::Applied(outcome)) => self.note_outcome(&outcome),
                Ok(_) => {
                    return Err(self.fail(editor, DriverError::InvalidSequenceState));
                },
                Err(error) => {
                    return Err(self.fail(editor, DriverError::Editor(error)));
                },
            }
        }
        self.clamp_vi_command_cursor(editor);
        self.schedule_command_display(editor)
    }

    /// Delete a counted run of units in one edit: a delete that cannot
    /// move beeps.
    fn dispatch_counted_character_delete<T: TerminalControl>(
        &mut self,
        editor: &mut Editor<T>,
        direction: Direction,
        repeat: usize,
    ) -> (result: Result<ReadStep, DriverError>)
        requires
            old(editor).wf(),
        ensures
            settled_step(result, final(self)@),
            final(editor).wf(),
            editor_kept_but_line(*old(editor), *final(editor)),
            local_finished(
                old(self)@,
                *old(editor),
                *final(editor),
                counted_delete(old(editor).model(), direction, repeat, old(self)@.beeps),
                final(self)@,
                result,
            ),
    {
        proof {
            editor.lemma_cursor_in_line();
        }
        let origin = editor.cursor();
        let destination = match editor.motion_destination(Motion::Character(direction), repeat) {
            Ok(destination) => destination,
            Err(error) => {
                return Err(self.fail(editor, DriverError::Editor(error)));
            },
        };
        if destination.get() == origin.get() {
            self.queue_beep();
        } else {
            let (start, end) = match direction {
                Direction::Previous => (destination.get(), origin.get()),
                Direction::Next => (origin.get(), destination.get()),
            };
            let span = match editor.line().span(start, end) {
                Ok(span) => span,
                Err(error) => {
                    return Err(self.fail(editor, DriverError::Editor(error)));
                },
            };
            match editor.execute(Action::Delete(EditTarget::Span(span))) {
                Ok(CommandStep::Applied(outcome)) => self.note_outcome(&outcome),
                Ok(_) => {
                    return Err(self.fail(editor, DriverError::InvalidSequenceState));
                },
                Err(error) => {
                    return Err(self.fail(editor, DriverError::Editor(error)));
                },
            }
        }
        self.clamp_vi_command_cursor(editor);
        self.schedule_command_display(editor)
    }

    /// Transpose the units around the cursor: a line shorter than two
    /// units beeps, and at the start of the line the cursor moves past the
    /// first unit with a beep instead.
    fn dispatch_transpose<T: TerminalControl>(&mut self, editor: &mut Editor<T>) -> (result: Result<
        ReadStep,
        DriverError,
    >)
        requires
            old(editor).wf(),
        ensures
            settled_step(result, final(self)@),
            final(editor).wf(),
            editor_kept_but_line(*old(editor), *final(editor)),
            local_finished(
                old(self)@,
                *old(editor),
                *final(editor),
                transpose_dispatched(old(editor).model(), old(self)@.beeps),
                final(self)@,
                result,
            ),
    {
        proof {
            editor.lemma_cursor_in_line();
        }
        if editor.line().len() < 2 {
            self.queue_beep();
            return self.schedule_command_display(editor);
        }
        if editor.cursor().get() == 0 {
            let destination = editor.line().index_within(1);
            match editor.execute(Action::Move(Motion::Absolute(destination))) {
                Ok(_) => {},
                Err(error) => {
                    return Err(self.fail(editor, DriverError::Editor(error)));
                },
            }
            self.queue_beep();
            return self.schedule_command_display(editor);
        }
        match editor.execute(Action::TransposeCharacters) {
            Ok(CommandStep::Applied(outcome)) => self.note_outcome(&outcome),
            Ok(_) => {
                return Err(self.fail(editor, DriverError::InvalidSequenceState));
            },
            Err(error) => {
                return Err(self.fail(editor, DriverError::Editor(error)));
            },
        }
        self.clamp_vi_command_cursor(editor);
        self.schedule_command_display(editor)
    }

    /// Run an action `repeat` times: no repeat only refreshes; an action
    /// served by the host (completion, history, a user command) is refused
    /// with a notification; a motion, a character delete and a
    /// transposition take their counted forms; the other actions repeat
    /// when they take a count and run once otherwise.
    pub fn dispatch_action<T: TerminalControl>(
        &mut self,
        editor: &mut Editor<T>,
        action: Action,
        invoking: TextUnit,
        repeat: usize,
    ) -> (result: Result<ReadStep, DriverError>)
        requires
            old(editor).wf(),
        ensures
            settled_step(result, final(self)@),
            final(editor).wf(),
            final(editor).display() == old(editor).display(),
            final(editor).configuration() == old(editor).configuration(),
            action_dispatched(old(self)@, *old(editor), *final(editor), action, invoking, repeat, final(self)@, result),
    {
        if repeat == 0 {
            return self.schedule_command_display(editor);
        }
        if !is_local_action(&action) {
            self.queue_beep();
            return self.schedule_command_display(editor);
        }
        match action {
            Action::Move(motion) => {
                return self.dispatch_counted_move(editor, motion, repeat);
            },
            Action::Delete(EditTarget::Character(direction)) => {
                return self.dispatch_counted_character_delete(editor, direction, repeat);
            },
            Action::TransposeCharacters => {
                return self.dispatch_transpose(editor);
            },
            _ => {},
        }
        let count = if action_repeats_with_count(&action) {
            repeat
        } else {
            1
        };
        self.continue_repetition(editor, action, invoking, count)
    }
}

impl ReadDriver {
    /// Continue after the host kept (or could not keep) an accepted line:
    /// the line break is emitted, then the read completes with the line.
    /// Any other failure fails the read.
    pub fn resume_history_record<T: TerminalControl>(
        &mut self,
        editor: &mut Editor<T>,
        pending: &Pending<HistoryRecordEffect>,
        response: EffectResult<()>,
    ) -> (result: Result<ReadStep, DriverError>)
        ensures
            editor_kept(*old(editor), *final(editor)),
            old(self)@.phase != (Phase::Effect { step: pending.step_view(), kind: EffectKind::RecordHistory })
                ==> (result matches Err(DriverError::StaleStep) && final(self)@ == old(self)@),
            old(self)@.phase == (Phase::Effect { step: pending.step_view(), kind: EffectKind::RecordHistory })
                && old(editor).pending_effect() != Some(pending.effect_issued()) ==> (result matches Err(
                DriverError::Effect(_),
            ) && final(self)@ == old(self)@),
            old(self)@.phase == (Phase::Effect { step: pending.step_view(), kind: EffectKind::RecordHistory })
                && old(editor).pending_effect() == Some(pending.effect_issued()) ==> ((result matches Err(
                DriverError::Effect(e),
            ) && e == EffectStateError::DifferentEditor && final(self)@ == old(self)@) || match response {
                Ok(()) | Err(HostFailure::Unavailable) => {
                    &&& display_issued(
                        DriverModel {
                            completion: final(self)@.completion,
                            display_kind: DisplayKind::FinishLine,
                            left: Seq::empty(),
                            right: None,
                            ..advancing(old(self)@)
                        },
                        final(self)@,
                        result,
                    )
                    &&& result is Ok ==> (final(self)@.completion matches Some(ReadResult::Accepted(t)) && t@
                        == pending.request_view().line@)
                },
                Err(failure) => final(self)@ == failed(old(self)@) && cooked_or_kept(*old(editor), *final(editor)) && (result matches Err(DriverError::Host(h)) && h
                    == failure),
            }),
    {
        let line = pending.request().line.duplicate();
        let response = match self.accept(editor, pending, EffectKind::RecordHistory, response) {
            Ok(response) => response,
            Err(error) => {
                return Err(error);
            },
        };
        match response {
            Ok(()) | Err(HostFailure::Unavailable) => {
                self.completion = Some(ReadResult::Accepted(line));
                self.schedule_display(editor, DisplayKind::FinishLine)
            },
            Err(error) => Err(self.fail(editor, DriverError::Host(error))),
        }
    }
}

impl ReadDriver {
    /// Queue units to be read before any other input, in order.
    fn replay_first(&mut self, units: &[TextUnit])
        ensures
            final(self)@ == (DriverModel { replay: old(self)@.replay + backwards(units@), ..old(self)@ }),
    {
        let ghost start = self@;
        let mut i = units.len();
        while i > 0
            invariant
                i <= units@.len(),
                self@ == (DriverModel { replay: start.replay + backwards(units@.subrange(i as int, units@.len() as int)), ..start }),
            decreases i,
        {
            i = i - 1;
            self.replay.push(units[i]);
            proof {
                assert(backwards(units@.subrange(i as int, units@.len() as int)) =~= backwards(
                    units@.subrange(i + 1, units@.len() as int),
                ).push(units@[i as int]));
            }
        }
        proof {
            assert(units@.subrange(0, units@.len() as int) =~= units@);
        }
    }

    /// Queue `repeat` copies of a macro's units to be read next; the total
    /// expanded within one input may not exceed the work limit.
    fn expand_macro(&mut self, text: &Text, repeat: usize) -> (result: Result<(), DriverError>)
        ensures
            macro_expanded(old(self)@, text@, repeat as nat) matches Some(n) ==> result is Ok && final(self)@ == n,
            macro_expanded(old(self)@, text@, repeat as nat) is None ==> final(self)@ == old(self)@ && (result matches Err(
                DriverError::WorkLimitExceeded { limit },
            ) && limit == old(self)@.work_limit),
    {
        let units = text.as_units();
        let added = match units.len().checked_mul(repeat) {
            Some(a) => a,
            None => {
                return Err(DriverError::WorkLimitExceeded { limit: self.work_limit });
            },
        };
        let total = match self.expanded_units.checked_add(added) {
            Some(t) => t,
            None => {
                return Err(DriverError::WorkLimitExceeded { limit: self.work_limit });
            },
        };
        if total > self.work_limit {
            return Err(DriverError::WorkLimitExceeded { limit: self.work_limit });
        }
        let ghost start = self@;
        let mut r: usize = 0;
        while r < repeat
            invariant
                r <= repeat,
                self@ == (DriverModel {
                    replay: start.replay + copies(backwards(units@), r as nat),
                    ..start
                }),
            decreases repeat - r,
        {
            self.replay_first(units);
            proof {
                assert(start.replay + copies(backwards(units@), r as nat) + backwards(units@) =~= start.replay
                    + copies(backwards(units@), (r + 1) as nat));
            }
            r = r + 1;
        }
        self.expanded_units = total;
        Ok(())
    }

    /// Refuse a binding this driver does not run: the argument is dropped
    /// and a notification comes with the refresh.
    fn refuse_binding<T: TerminalControl>(&mut self, editor: &mut Editor<T>) -> (result: Result<Option<ReadStep>, DriverError>)
        ensures
            !(result matches Ok(None)) ==> settled_step(as_read_step(result), final(self)@),
            editor_kept(*old(editor), *final(editor)),
            final(editor).committed_mode() == old(editor).committed_mode(),
            refused_binding(old(self)@, *old(editor), *final(editor), final(self)@, result),
    {
        self.repeat_argument = None;
        self.queue_beep();
        match self.schedule_command_display(editor) {
            Ok(step) => Ok(Some(step)),
            Err(error) => Err(error),
        }
    }

    /// Run a complete binding typed with `invoking`. Actions take the
    /// argument as their count; argument commands build it; a meta prefix
    /// marks the next unit; a quoted insertion waits for the next unit in
    /// quoted mode; a macro queues its units; Vi sequences go to the Vi
    /// dispatcher. Bindings this driver does not run (host completion,
    /// history, user commands and the effect commands) are refused with a
    /// notification. `None` means the
    /// next unit is read.
    #[verifier::rlimit(60)]
    #[verifier::spinoff_prover]
    pub fn dispatch_binding<T: TerminalControl>(
        &mut self,
        editor: &mut Editor<T>,
        binding: Binding,
        invoking: TextUnit,
    ) -> (result: Result<Option<ReadStep>, DriverError>)
        requires
            old(editor).wf(),
        ensures
            !(result matches Ok(None)) ==> settled_step(as_read_step(result), final(self)@),
            final(editor).wf(),
            final(editor).display() == old(editor).display(),
            final(editor).configuration() == old(editor).configuration(),
            binding_dispatched(
                DriverModel { keys: Seq::empty(), ambiguous: None, ..old(self)@ },
                *old(editor),
                *final(editor),
                binding,
                invoking,
                final(self)@,
                result,
            ),
            final(self)@.work_limit == old(self)@.work_limit,
            final(self)@.ambiguous is None,
            result matches Ok(None) ==> budget(final(self)@) < budget(old(self)@) || (budget(final(self)@) == budget(
                old(self)@,
            ) && pending_total(final(self)@) <= available(old(self)@)),
    {
        self.key_sequence = Vec::new();
        self.ambiguous = None;
        match binding {
            Binding::Action(action) => {
                if !is_local_action(&action) {
                    return self.refuse_binding(editor);
                }
                let count = self.take_repeat(None);
                match self.dispatch_action(editor, action, invoking, count) {
                    Ok(step) => Ok(Some(step)),
                    Err(error) => Err(error),
                }
            },
            Binding::Sequence(CommandSequence::Argument(command)) => {
                match self.apply_argument(command, invoking) {
                    Ok(ArgumentStep::Continue) => Ok(None),
                    Ok(ArgumentStep::Beep) => match self.schedule_command_display(editor) {
                        Ok(step) => Ok(Some(step)),
                        Err(error) => Err(error),
                    },
                    Ok(ArgumentStep::InsertInvoking) => {
                        let text = Text::from_units(vec![invoking]);
                        let ghost chosen = choose|t: Text| t@ == seq![invoking];
                        proof {
                            assert(text@ =~= seq![invoking]);
                            lemma_insert_dispatch_by_view(
                                self@,
                                *editor,
                                text,
                                chosen,
                                invoking,
                            );
                        }
                        match self.dispatch_action(editor, Action::Insert(text), invoking, 1) {
                            Ok(step) => Ok(Some(step)),
                            Err(error) => Err(error),
                        }
                    },
                    Err(error) => Err(self.fail(editor, error)),
                }
            },
            Binding::Sequence(CommandSequence::MetaNext) => {
                self.meta_next = true;
                Ok(None)
            },
            Binding::Sequence(CommandSequence::QuotedInsert) => {
                let count = self.take_repeat(None);
                match editor.set_terminal_mode(TerminalMode::Quoted) {
                    Ok(()) => {},
                    Err(error) => {
                        return Err(self.fail(editor, DriverError::Terminal(error)));
                    },
                }
                self.quoted = Some(count);
                Ok(None)
            },
            Binding::Sequence(CommandSequence::Vi(sequence)) => self.dispatch_vi_sequence(editor, sequence),
            Binding::Macro(text) => {
                let count = self.take_repeat(None);
                let ghost taken = self@;
                match self.expand_macro(&text, count) {
                    Ok(()) => {
                        proof {
                            lemma_macro_progress(taken, text@, count as nat);
                        }
                        Ok(None)
                    },
                    Err(error) => Err(self.fail(editor, error)),
                }
            },
            _ => self.refuse_binding(editor),
        }
    }

    /// Insert the unit that follows a quoted-insert command `count` times,
    /// after returning the terminal to editing mode.
    fn insert_quoted<T: TerminalControl>(&mut self, editor: &mut Editor<T>, unit: TextUnit, count: usize) -> (result:
        Result<Option<ReadStep>, DriverError>)
        requires
            old(editor).wf(),
        ensures
            !(result matches Ok(None)) ==> settled_step(as_read_step(result), final(self)@),
            final(editor).wf(),
            final(editor).display() == old(editor).display(),
            final(editor).configuration() == old(editor).configuration(),
            quoted_inserted(old(self)@, *old(editor), *final(editor), unit, count as nat, final(self)@, result),
    {
        match editor.set_terminal_mode(TerminalMode::Editing) {
            Ok(()) => {},
            Err(error) => {
                return Err(self.fail(editor, DriverError::Terminal(error)));
            },
        }
        let mut units: Vec<TextUnit> = Vec::new();
        let mut i: usize = 0;
        while i < count
            invariant
                i <= count,
                units@ == copies(seq![unit], i as nat),
            decreases count - i,
        {
            units.push(unit);
            i = i + 1;
        }
        let text = Text::from_units(units);
        let ghost before = editor.model();
        proof {
            lemma_inserted_step_by_view(before, text, copies(seq![unit], count as nat));
        }
        match editor.execute(Action::Insert(text)) {
            Ok(CommandStep::Applied(outcome)) => self.note_outcome(&outcome),
            Ok(_) => {
                return Err(self.fail(editor, DriverError::InvalidSequenceState));
            },
            Err(error) => {
                return Err(self.fail(editor, DriverError::Editor(error)));
            },
        }
        if count > 1 {
            self.clamp_vi_command_cursor(editor);
        }
        match self.schedule_command_display(editor) {
            Ok(step) => Ok(Some(step)),
            Err(error) => Err(error),
        }
    }

    /// A unit that completed no binding: a pending ambiguous binding runs
    /// and the keys typed after it are read again; otherwise a single
    /// printable unit outside Vi command mode is inserted with the
    /// argument as its count, and anything else beeps.
    #[verifier::rlimit(60)]
    #[verifier::spinoff_prover]
    fn handle_unbound<T: TerminalControl>(&mut self, editor: &mut Editor<T>, unit: TextUnit) -> (result: Result<
        Option<ReadStep>,
        DriverError,
    >)
        requires
            old(editor).wf(),
            old(self).wf(),
        ensures
            !(result matches Ok(None)) ==> settled_step(as_read_step(result), final(self)@),
            final(editor).wf(),
            final(editor).display() == old(editor).display(),
            final(editor).configuration() == old(editor).configuration(),
            unbound_handled(old(self)@, *old(editor), *final(editor), unit, final(self)@, result),
            final(self)@.work_limit == old(self)@.work_limit,
            final(self)@.ambiguous is None,
            result matches Ok(None) ==> budget(final(self)@) < budget(old(self)@) || (budget(final(self)@) == budget(
                old(self)@,
            ) && pending_total(final(self)@) < pending_total(old(self)@)),
    {
        match self.ambiguous.take() {
            Some((binding, prefix, invoking)) => {
                let mut suffix: Vec<TextUnit> = Vec::new();
                let mut i = prefix;
                while i < self.key_sequence.len()
                    invariant
                        prefix <= i <= self.key_sequence@.len(),
                        suffix@ == self.key_sequence@.subrange(prefix as int, i as int),
                    decreases self.key_sequence@.len() - i,
                {
                    suffix.push(self.key_sequence[i]);
                    i = i + 1;
                }
                self.key_sequence = Vec::new();
                self.replay_first(&suffix);
                return self.dispatch_binding(editor, binding, invoking);
            },
            None => {},
        }
        let mode = editor.keymap_mode();
        let printable = match unit {
            TextUnit::Scalar(c) => !is_control_char(c),
            _ => true,
        };
        let insert = self.key_sequence.len() == 1 && mode != KeymapMode::ViCommand && printable;
        self.key_sequence = Vec::new();
        if insert {
            let count = self.take_repeat(None);
            let text = Text::from_units(vec![unit]);
            let ghost chosen = choose|t: Text| t@ == seq![unit];
            proof {
                assert(text@ =~= seq![unit]);
                lemma_insert_dispatch_counted_by_view(self@, *editor, text, chosen, unit, count);
            }
            match self.dispatch_action(editor, Action::Insert(text), unit, count) {
                Ok(step) => Ok(Some(step)),
                Err(error) => Err(error),
            }
        } else {
            self.repeat_argument = None;
            match self.schedule_display(editor, DisplayKind::Beep) {
                Ok(step) => Ok(Some(step)),
                Err(error) => Err(error),
            }
        }
    }
}

impl ReadDriver {
    /// Process one input unit. Under character buffering the read
    /// completes with it. A unit after a quoted-insert command is
    /// inserted. Otherwise a pending meta prefix applies, a Vi count digit
    /// builds the argument, and the unit extends the key sequence, which is
    /// then looked up in the active keymap: a complete binding with no
    /// longer one runs; one that is also a prefix waits; a prefix waits;
    /// no match is handled as unbound. `None` means the next unit is read.
    pub fn process_unit<T: TerminalControl>(&mut self, editor: &mut Editor<T>, unit: TextUnit) -> (result: Result<
        Option<ReadStep>,
        DriverError,
    >)
        requires
            old(editor).wf(),
            old(self).wf(),
        ensures
            !(result matches Ok(None)) ==> settled_step(as_read_step(result), final(self)@),
            final(editor).wf(),
            final(editor).display() == old(editor).display(),
            final(editor).configuration() == old(editor).configuration(),
            unit_processed(old(self)@, *old(editor), *final(editor), unit, final(self)@, result),
            final(self).wf(),
            result matches Ok(None) ==> progressed(old(self)@, final(self)@),
    {
        reveal(unit_processed);
        if editor.config().buffering() == Buffering::Character {
            return match self.complete(editor, ReadResult::Character(unit)) {
                Ok(step) => Ok(Some(step)),
                Err(error) => Err(error),
            };
        }
        match self.quoted.take() {
            Some(count) => {
                return self.insert_quoted(editor, unit, count);
            },
            None => {},
        }
        match self.character_search.take() {
            Some((search, count)) => {
                self.last_character_search = Some((search, unit));
                return match self.run_character_search(editor, search, unit, count) {
                    Ok(step) => Ok(Some(step)),
                    Err(error) => Err(error),
                };
            },
            None => {},
        }
        let unit = self.take_meta_unit(unit);
        let mode = editor.keymap_mode();
        match self.capture_count(mode, unit) {
            Ok(true) => {
                return Ok(None);
            },
            Ok(false) => {},
            Err(error) => {
                return Err(self.fail(editor, error));
            },
        }
        self.key_sequence.push(unit);
        let keys = Text::from_slice(self.key_sequence.as_slice());
        let sequence = match KeySequence::new(keys) {
            Ok(sequence) => sequence,
            Err(error) => {
                return Err(self.fail(editor, DriverError::Editor(error)));
            },
        };
        let found: Option<(Binding, bool)> = match editor.key_binding(&sequence) {
            KeyLookup::Exact(binding) => Some((copy_binding(binding), false)),
            KeyLookup::Ambiguous(binding) => Some((copy_binding(binding), true)),
            KeyLookup::Prefix => None,
            KeyLookup::Unbound => {
                return self.handle_unbound(editor, unit);
            },
        };
        let ghost table = editor.table(editor.model().keymap_mode);
        let ghost keys_seen = self@.keys;
        match found {
            Some((binding, false)) => {
                let ghost copied = binding;
                let result = self.dispatch_binding(editor, binding, unit);
                assert(same_binding(table[keys_seen], copied));
                result
            },
            Some((binding, true)) => {
                self.ambiguous = Some((binding, self.key_sequence.len(), unit));
                Ok(None)
            },
            None => Ok(None),
        }
    }
}

impl ReadDriver {
    /// No continuation came before a key-sequence deadline: a pending
    /// ambiguous binding runs; otherwise the keys and the argument are
    /// dropped with a notification.
    fn handle_timeout<T: TerminalControl>(&mut self, editor: &mut Editor<T>) -> (result: Result<
        Option<ReadStep>,
        DriverError,
    >)
        requires
            old(editor).wf(),
            old(self).wf(),
        ensures
            !(result matches Ok(None)) ==> settled_step(as_read_step(result), final(self)@),
            final(editor).wf(),
            final(editor).display() == old(editor).display(),
            final(editor).configuration() == old(editor).configuration(),
            timeout_handled(old(self)@, *old(editor), *final(editor), final(self)@, result),
            final(self).wf(),
    {
        reveal(timeout_handled);
        self.key_sequence = Vec::new();
        match self.ambiguous.take() {
            Some((binding, _, invoking)) => self.dispatch_binding(editor, binding, invoking),
            None => {
                self.repeat_argument = None;
                match self.schedule_display(editor, DisplayKind::Beep) {
                    Ok(step) => Ok(Some(step)),
                    Err(error) => Err(error),
                }
            },
        }
    }

    /// The input ended with nothing left to process: a pending ambiguous
    /// binding runs; otherwise a pending quoted insertion is cancelled
    /// (back to editing mode) and the read completes at the end of input.
    fn handle_eof<T: TerminalControl>(&mut self, editor: &mut Editor<T>) -> (result: Result<
        Option<ReadStep>,
        DriverError,
    >)
        requires
            old(editor).wf(),
            old(self).wf(),
        ensures
            !(result matches Ok(None)) ==> settled_step(as_read_step(result), final(self)@),
            final(editor).wf(),
            final(editor).display() == old(editor).display(),
            final(editor).configuration() == old(editor).configuration(),
            eof_handled(old(self)@, *old(editor), *final(editor), final(self)@, result),
            final(self).wf(),
            result matches Ok(None) ==> budget(final(self)@) < budget(old(self)@) || (budget(final(self)@) == budget(
                old(self)@,
            ) && pending_total(final(self)@) < pending_total(old(self)@)),
    {
        reveal(eof_handled);
        match self.ambiguous.take() {
            Some((binding, _, invoking)) => {
                self.key_sequence = Vec::new();
                return self.dispatch_binding(editor, binding, invoking);
            },
            None => {},
        }
        self.key_sequence = Vec::new();
        self.repeat_argument = None;
        if self.quoted.is_some() {
            match editor.set_terminal_mode(TerminalMode::Editing) {
                Ok(()) => {},
                Err(error) => {
                    return Err(self.fail(editor, DriverError::Terminal(error)));
                },
            }
        }
        self.quoted = None;
        self.meta_next = false;
        match self.complete(editor, ReadResult::EndOfInput) {
            Ok(step) => Ok(Some(step)),
            Err(error) => Err(error),
        }
    }

    /// Work through the input already received: a completed read finishes;
    /// queued and decoded units are processed in order until one yields a
    /// step; the end of input is handled once nothing is left; otherwise
    /// the host is asked for more input, for a key-sequence continuation
    /// while keys are pending.
    #[verifier::rlimit(60)]
    #[verifier::spinoff_prover]
    pub fn advance<T: TerminalControl>(&mut self, editor: &mut Editor<T>) -> (result: Result<ReadStep, DriverError>)
        requires
            old(editor).wf(),
            old(self).wf(),
        ensures
            final(editor).wf(),
            final(editor).display() == old(editor).display(),
            final(editor).configuration() == old(editor).configuration(),
            continued(final(self)@, *final(editor), result),
            old(self)@.completion is Some ==> completed(
                DriverModel { completion: None, ..old(self)@ },
                *old(editor),
                *final(editor),
                old(self)@.completion->0,
                final(self)@,
                result,
            ),
            old(self)@.completion is None && available(old(self)@) == 0 && !old(self)@.eof ==> input_requested(
                old(self)@,
                *old(editor),
                *final(editor),
                final(self)@,
                result,
            ),
    {
        match self.completion.take() {
            Some(outcome) => {
                return self.complete(editor, outcome);
            },
            None => {},
        }
        if self.replay.len() == 0 && self.decoder.is_drained() && !self.eof_pending {
            let effect = if self.key_sequence.len() == 0 {
                ReadEffect::Input
            } else {
                ReadEffect::KeySequence
            };
            return match self.request_effect(editor, effect, EffectKind::Read) {
                Ok(pending) => Ok(ReadStep::Read(pending)),
                Err(error) => Err(error),
            };
        }
        loop
            invariant
                old(self)@.completion is None,
                available(old(self)@) != 0 || old(self)@.eof,
                editor.wf(),
                self.wf(),
                editor.display() == old(editor).display(),
                editor.configuration() == old(editor).configuration(),
            decreases budget(self@), pending_total(self@), available(self@),
        {
            match self.completion.take() {
                Some(outcome) => {
                    return self.complete(editor, outcome);
                },
                None => {},
            }
            let ghost before = self@;
            let next = match self.replay.pop() {
                Some(unit) => Some(unit),
                None => self.decoder.pop(),
            };
            match next {
                Some(unit) => {
                    let ghost popped = self@;
                    assert(pending_total(popped) + 1 == pending_total(before));
                    assert(available(popped) + 1 == available(before));
                    match self.process_unit(editor, unit) {
                        Ok(Some(step)) => {
                            return Ok(step);
                        },
                        Ok(None) => {},
                        Err(error) => {
                            return Err(error);
                        },
                    }
                },
                None => {
                    if self.eof_pending {
                        match self.handle_eof(editor) {
                            Ok(Some(step)) => {
                                return Ok(step);
                            },
                            Ok(None) => {},
                            Err(error) => {
                                return Err(error);
                            },
                        }
                    } else {
                        let effect = if self.key_sequence.len() == 0 {
                            ReadEffect::Input
                        } else {
                            ReadEffect::KeySequence
                        };
                        return match self.request_effect(editor, effect, EffectKind::Read) {
                            Ok(pending) => Ok(ReadStep::Read(pending)),
                            Err(error) => Err(error),
                        };
                    }
                },
            }
        }
    }
}

impl ReadDriver {
    /// A signal arrived while reading. With signals left to the host the
    /// read completes as interrupted. A resize first asks for the new size
    /// and then propagates the signal; a continuation returns the terminal
    /// to editing mode and the others to cooked mode before the signal is
    /// propagated.
    fn handle_signal<T: TerminalControl>(&mut self, editor: &mut Editor<T>, signal: Signal) -> (result: Result<
        ReadStep,
        DriverError,
    >)
        ensures
            editor_kept(*old(editor), *final(editor)),
            signal_handled(
                old(self)@,
                *old(editor),
                old(editor).pending_effect(),
                old(editor).issued_effects(),
                *final(editor),
                signal,
                final(self)@,
                result,
            ),
    {
        if editor.config().signal_policy() == SignalPolicy::Ignore {
            return self.complete(editor, ReadResult::Interrupted(ReadInterrupt::Signal(signal)));
        }
        match signal {
            Signal::Resize => {
                self.signal_after_resize = Some(signal);
                match self.request_effect(editor, ResizeEffect, EffectKind::Resize) {
                    Ok(pending) => Ok(ReadStep::Resize(pending)),
                    Err(error) => Err(error),
                }
            },
            _ => {
                let mode = match signal {
                    Signal::Continue => TerminalMode::Editing,
                    _ => TerminalMode::Cooked,
                };
                match editor.set_terminal_mode(mode) {
                    Ok(()) => {},
                    Err(error) => {
                        return Err(self.fail(editor, DriverError::Terminal(error)));
                    },
                }
                match self.request_effect(editor, SignalEffect { signal }, EffectKind::Signal) {
                    Ok(pending) => Ok(ReadStep::Signal(pending)),
                    Err(error) => Err(error),
                }
            },
        }
    }

    /// Continue after the host answered a read: a cancellation or an
    /// interruption completes the read, any other failure fails it;
    /// bytes are decoded and a unit is processed, each then followed by the
    /// input already queued; a signal is handled; a timeout settles a
    /// pending key sequence (and fails a plain read); the end of input
    /// decodes what is left and is handled once nothing is.
    pub fn resume_read<T: TerminalControl>(
        &mut self,
        editor: &mut Editor<T>,
        pending: &Pending<ReadEffect>,
        response: EffectResult<ReadOutcome>,
    ) -> (result: Result<ReadStep, DriverError>)
        requires
            old(editor).wf(),
            old(self).wf(),
        ensures
            final(editor).wf(),
            final(editor).display() == old(editor).display(),
            final(editor).configuration() == old(editor).configuration(),
            old(self)@.phase != (Phase::Effect { step: pending.step_view(), kind: EffectKind::Read }) ==> (result matches Err(
                DriverError::StaleStep,
            ) && final(self)@ == old(self)@),
            old(self)@.phase == (Phase::Effect { step: pending.step_view(), kind: EffectKind::Read }) && old(
                editor,
            ).pending_effect() != Some(pending.effect_issued()) ==> (result matches Err(DriverError::Effect(_))
                && final(self)@ == old(self)@),
            old(self)@.phase == (Phase::Effect { step: pending.step_view(), kind: EffectKind::Read }) && old(
                editor,
            ).pending_effect() == Some(pending.effect_issued()) ==> ((result matches Err(DriverError::Effect(e))
                && e == EffectStateError::DifferentEditor && final(self)@ == old(self)@) || read_answered(
                advancing(old(self)@),
                *old(editor),
                *final(editor),
                pending.request_view(),
                response,
                final(self)@,
                result,
            )),
    {
        let purpose = *pending.request();
        let response = match self.accept(editor, pending, EffectKind::Read, response) {
            Ok(response) => response,
            Err(error) => {
                return Err(error);
            },
        };
        let outcome = match response {
            Ok(outcome) => outcome,
            Err(HostFailure::Cancelled) => {
                return self.complete(editor, ReadResult::Interrupted(ReadInterrupt::Cancelled));
            },
            Err(HostFailure::Interrupted) => {
                return self.complete(editor, ReadResult::Interrupted(ReadInterrupt::Host));
            },
            Err(error) => {
                return Err(self.fail(editor, DriverError::Host(error)));
            },
        };
        match outcome {
            ReadOutcome::Bytes(bytes) => {
                self.expanded_units = 0;
                self.decoder.push(bytes.as_slice());
                self.advance(editor)
            },
            ReadOutcome::Unit(unit) => {
                self.expanded_units = 0;
                match self.process_unit(editor, unit) {
                    Ok(Some(step)) => Ok(step),
                    Ok(None) => self.advance(editor),
                    Err(error) => Err(error),
                }
            },
            ReadOutcome::Signal(signal) => self.handle_signal(editor, signal),
            ReadOutcome::TimedOut => {
                let continuation = match purpose {
                    ReadEffect::KeySequence => true,
                    ReadEffect::Input => false,
                };
                if continuation {
                    match self.handle_timeout(editor) {
                        Ok(Some(step)) => Ok(step),
                        Ok(None) => self.advance(editor),
                        Err(error) => Err(error),
                    }
                } else {
                    Err(self.fail(editor, DriverError::UnexpectedTimeout))
                }
            },
            ReadOutcome::EndOfInput => {
                self.decoder.finish();
                self.eof_pending = true;
                self.advance(editor)
            },
        }
    }

    /// Continue after the host propagated a signal: a resize refreshes; a
    /// suspension is followed, once the terminal is back in editing mode,
    /// by a continuation; a continuation asks for the terminal size; the
    /// others complete the read as interrupted by the signal.
    pub fn resume_signal<T: TerminalControl>(
        &mut self,
        editor: &mut Editor<T>,
        pending: &Pending<SignalEffect>,
        response: EffectResult<()>,
    ) -> (result: Result<ReadStep, DriverError>)
        ensures
            editor_kept(*old(editor), *final(editor)),
            old(self)@.phase != (Phase::Effect { step: pending.step_view(), kind: EffectKind::Signal }) ==> (
            result matches Err(DriverError::StaleStep) && final(self)@ == old(self)@),
            old(self)@.phase == (Phase::Effect { step: pending.step_view(), kind: EffectKind::Signal }) && old(
                editor,
            ).pending_effect() != Some(pending.effect_issued()) ==> (result matches Err(DriverError::Effect(_))
                && final(self)@ == old(self)@),
            old(self)@.phase == (Phase::Effect { step: pending.step_view(), kind: EffectKind::Signal }) && old(
                editor,
            ).pending_effect() == Some(pending.effect_issued()) ==> ((result matches Err(DriverError::Effect(e))
                && e == EffectStateError::DifferentEditor && final(self)@ == old(self)@) || signal_answered(
                advancing(old(self)@),
                *old(editor),
                *final(editor),
                pending.request_view().signal,
                response,
                final(self)@,
                result,
            )),
    {
        let signal = pending.request().signal;
        let response = match self.accept(editor, pending, EffectKind::Signal, response) {
            Ok(response) => response,
            Err(error) => {
                return Err(error);
            },
        };
        match response {
            Ok(()) => {},
            Err(HostFailure::Interrupted) => {
                return self.complete(editor, ReadResult::Interrupted(ReadInterrupt::Host));
            },
            Err(error) => {
                return Err(self.fail(editor, DriverError::Host(error)));
            },
        }
        match signal {
            Signal::Resize => self.schedule_display(editor, DisplayKind::Refresh),
            Signal::Suspend => {
                match editor.set_terminal_mode(TerminalMode::Editing) {
                    Ok(()) => {},
                    Err(error) => {
                        return Err(self.fail(editor, DriverError::Terminal(error)));
                    },
                }
                match self.request_effect(editor, SignalEffect { signal: Signal::Continue }, EffectKind::Signal) {
                    Ok(pending) => Ok(ReadStep::Signal(pending)),
                    Err(error) => Err(error),
                }
            },
            Signal::Continue => match self.request_effect(editor, ResizeEffect, EffectKind::Resize) {
                Ok(pending) => Ok(ReadStep::Resize(pending)),
                Err(error) => Err(error),
            },
            _ => self.complete(editor, ReadResult::Interrupted(ReadInterrupt::Signal(signal))),
        }
    }
}

/// What holds after input was worked through, ending in `n` with `result`:
/// a failure or a completion leaves the driver idle, and a request for
/// input comes only once everything received was processed.
pub open spec fn continued<T: TerminalControl>(n: DriverModel, after: Editor<T>, result: Result<ReadStep, DriverError>) -> bool {
    &&& result is Err ==> n.phase == Phase::Idle
    &&& result matches Ok(ReadStep::Complete(_)) ==> n.phase == Phase::Idle
    &&& result matches Ok(ReadStep::Read(p)) ==> ({
        &&& n.replay.len() == 0
        &&& n.input.ready.len() == 0
        &&& !n.eof
        &&& n.completion is None
        &&& n.phase == (Phase::Effect { step: p.step_view(), kind: EffectKind::Read })
        &&& p.request_view() == (if n.keys.len() == 0 {
            ReadEffect::Input
        } else {
            ReadEffect::KeySequence
        })
        &&& after.pending_effect() == Some(p.effect_issued())
    })
}

/// How a signal is handled from `m`.
pub open spec fn signal_handled<T: TerminalControl>(
    m: DriverModel,
    before: Editor<T>,
    pending: Option<u64>,
    issued: u64,
    after: Editor<T>,
    signal: Signal,
    n: DriverModel,
    result: Result<ReadStep, DriverError>,
) -> bool {
    if before.configuration().signal_policy == SignalPolicy::Ignore {
        completed(m, before, after, ReadResult::Interrupted(ReadInterrupt::Signal(signal)), n, result)
    } else if signal == Signal::Resize {
        let (expected, r) = requested(
            DriverModel { resize_signal: Some(signal), ..m },
            pending,
            issued,
            EffectKind::Resize,
        );
        &&& n == expected
        &&& r matches Ok(s) ==> (result matches Ok(ReadStep::Resize(p)) && p.step_view() == s)
        &&& r matches Err(x) ==> (result matches Err(y) && y == x)
    } else {
        let mode = if signal == Signal::Continue {
            TerminalMode::Editing
        } else {
            TerminalMode::Cooked
        };
        if after.committed_mode() == mode && !(result matches Err(DriverError::Terminal(_))) {
            signal_requested(m, pending, issued, after, signal, n, result)
        } else {
            n == failed(m) && (result matches Err(DriverError::Terminal(_))) && cooked_or_kept(before, after)
        }
    }
}

/// What an accepted read response does, from the advancing state `m`.
pub open spec fn read_answered<T: TerminalControl>(
    m: DriverModel,
    before: Editor<T>,
    after: Editor<T>,
    purpose: ReadEffect,
    response: EffectResult<ReadOutcome>,
    n: DriverModel,
    result: Result<ReadStep, DriverError>,
) -> bool {
    match response {
        Err(HostFailure::Cancelled) => completed(m, before, after, ReadResult::Interrupted(ReadInterrupt::Cancelled), n, result),
        Err(HostFailure::Interrupted) => completed(m, before, after, ReadResult::Interrupted(ReadInterrupt::Host), n, result),
        Err(failure) => n == failed(m) && cooked_or_kept(before, after) && (result matches Err(DriverError::Host(h))
            && h == failure),
        Ok(ReadOutcome::Signal(signal)) => signal_handled(m, before, None, before.issued_effects(), after, signal, n, result),
        Ok(ReadOutcome::TimedOut) => if purpose == ReadEffect::Input {
            n == failed(m) && cooked_or_kept(before, after) && result matches Err(DriverError::UnexpectedTimeout)
        } else {
            continued(n, after, result)
        },
        Ok(_) => continued(n, after, result),
    }
}

/// What an accepted signal response does, from the advancing state `m`.
pub open spec fn signal_answered<T: TerminalControl>(
    m: DriverModel,
    before: Editor<T>,
    after: Editor<T>,
    signal: Signal,
    response: EffectResult<()>,
    n: DriverModel,
    result: Result<ReadStep, DriverError>,
) -> bool {
    match response {
        Err(HostFailure::Interrupted) => completed(m, before, after, ReadResult::Interrupted(ReadInterrupt::Host), n, result),
        Err(failure) => n == failed(m) && cooked_or_kept(before, after) && (result matches Err(DriverError::Host(h))
            && h == failure),
        Ok(()) => match signal {
            Signal::Resize => prompt_requested(
                DriverModel { display_kind: DisplayKind::Refresh, ..m },
                None,
                before.issued_effects(),
                after,
                PromptSide::Left,
                n,
                result,
            ),
            Signal::Suspend => if after.committed_mode() == TerminalMode::Editing && !(result matches Err(
                DriverError::Terminal(_),
            )) {
                signal_requested(m, None, before.issued_effects(), after, Signal::Continue, n, result)
            } else {
                n == failed(m) && (result matches Err(DriverError::Terminal(_))) && cooked_or_kept(before, after)
            },
            Signal::Continue => {
                let (expected, r) = requested(m, None, before.issued_effects(), EffectKind::Resize);
                &&& n == expected
                &&& r matches Ok(s) ==> (result matches Ok(ReadStep::Resize(p)) && p.step_view() == s)
                &&& r matches Err(x) ==> (result matches Err(y) && y == x)
            },
            _ => completed(m, before, after, ReadResult::Interrupted(ReadInterrupt::Signal(signal)), n, result),
        },
    }
}

/// The host was asked for input from `m`, for a key-sequence
/// continuation while keys are pending.
pub open spec fn input_requested<T: TerminalControl>(
    m: DriverModel,
    before: Editor<T>,
    after: Editor<T>,
    n: DriverModel,
    result: Result<ReadStep, DriverError>,
) -> bool {
    let effect = if m.keys.len() == 0 {
        ReadEffect::Input
    } else {
        ReadEffect::KeySequence
    };
    let (expected, r) = requested(m, before.pending_effect(), before.issued_effects(), EffectKind::Read);
    &&& n == expected
    &&& after.model() == before.model()
    &&& after.committed_mode() == before.committed_mode()
    &&& r matches Ok(s) ==> (result matches Ok(ReadStep::Read(p)) && p.step_view() == s && p.request_view() == effect
        && after.pending_effect() == Some(p.effect_issued()))
    &&& r matches Err(x) ==> (result matches Err(y) && y == x)
}

/// The expansion budget left within one input.
pub open spec fn budget(m: DriverModel) -> nat {
    if m.expanded <= m.work_limit {
        (m.work_limit - m.expanded) as nat
    } else {
        0
    }
}

/// The units not yet dispatched: queued, decoded and typed into the key
/// sequence.
pub open spec fn pending_total(m: DriverModel) -> nat {
    m.replay.len() + m.input.ready.len() + m.keys.len()
}

/// The units waiting to be taken.
pub open spec fn available(m: DriverModel) -> nat {
    m.replay.len() + m.input.ready.len()
}

/// How a key-sequence deadline is handled from `m`.
#[verifier::opaque]
pub open spec fn timeout_handled<T: TerminalControl>(
    m: DriverModel,
    before: Editor<T>,
    after: Editor<T>,
    n: DriverModel,
    result: Result<Option<ReadStep>, DriverError>,
) -> bool {
    match m.ambiguous {
        Some((binding, _, invoking)) => binding_dispatched(
            DriverModel { keys: Seq::empty(), ambiguous: None, ..m },
            before,
            after,
            binding,
            invoking,
            n,
            result,
        ),
        None => {
            &&& after.model() == before.model()
            &&& after.pending_effect() == before.pending_effect()
            &&& display_issued(
                DriverModel {
                    keys: Seq::empty(),
                    repeat: None,
                    display_kind: DisplayKind::Beep,
                    left: Seq::empty(),
                    right: None,
                    ..m
                },
                n,
                as_read_step(result),
            )
        },
    }
}

/// How the end of input is handled from `m` once nothing is left to
/// process.
#[verifier::opaque]
pub open spec fn eof_handled<T: TerminalControl>(
    m: DriverModel,
    before: Editor<T>,
    after: Editor<T>,
    n: DriverModel,
    result: Result<Option<ReadStep>, DriverError>,
) -> bool {
    match m.ambiguous {
        Some((binding, _, invoking)) => binding_dispatched(
            DriverModel { keys: Seq::empty(), ambiguous: None, ..m },
            before,
            after,
            binding,
            invoking,
            n,
            result,
        ),
        None => {
            let m1 = DriverModel { keys: Seq::empty(), repeat: None, ..m };
            &&& after.model() == before.model()
            &&& m.quoted is None || before.committed_mode() == TerminalMode::Editing ==> completed(
                DriverModel { quoted: None, meta_next: false, ..m1 },
                before,
                after,
                ReadResult::EndOfInput,
                n,
                as_read_step(result),
            )
            &&& m.quoted is Some ==> (n == failed(m1) && (result matches Err(DriverError::Terminal(_)))
                && cooked_or_kept(before, after)) || completed(
                DriverModel { quoted: None, meta_next: false, ..m1 },
                before,
                after,
                ReadResult::EndOfInput,
                n,
                as_read_step(result),
            )
        },
    }
}

/// Processing a taken unit from `m` without making a step leaves less to
/// do: less expansion budget, or as much budget and fewer units pending,
/// or as many pending and fewer waiting, counting the unit taken.
pub open spec fn progressed(m: DriverModel, n: DriverModel) -> bool {
    ||| budget(n) < budget(m)
    ||| budget(n) == budget(m) && pending_total(n) <= pending_total(m)
    ||| budget(n) == budget(m) && pending_total(n) == pending_total(m) + 1 && available(n) <= available(m)
}


/// A copy of a binding that does the same.
pub fn copy_binding(binding: &Binding) -> (copy: Binding)
    ensures
        same_binding(*binding, copy),
{
    match binding {
        Binding::Action(action) => Binding::Action(copy_action(action)),
        Binding::Sequence(sequence) => Binding::Sequence(*sequence),
        Binding::Effect(command) => Binding::Effect(*command),
        Binding::Macro(text) => Binding::Macro(text.duplicate()),
    }
}

/// Two bindings that do the same: equal, or carrying actions or macro
/// texts that do the same.
pub open spec fn same_binding(a: Binding, b: Binding) -> bool {
    match a {
        Binding::Action(x) => b matches Binding::Action(y) && same_action(x, y),
        Binding::Macro(x) => b matches Binding::Macro(y) && x@ == y@,
        _ => a == b,
    }
}

/// A binding that does the same as `bound` ran from `m`, its keys done.
pub open spec fn exact_dispatched<T: TerminalControl>(
    m: DriverModel,
    bound: Binding,
    before: Editor<T>,
    after: Editor<T>,
    invoking: TextUnit,
    n: DriverModel,
    result: Result<Option<ReadStep>, DriverError>,
) -> bool {
    exists|b: Binding|
        #[trigger] same_binding(bound, b) && binding_dispatched(
            DriverModel { keys: Seq::empty(), ambiguous: None, ..m },
            before,
            after,
            b,
            invoking,
            n,
            result,
        )
}

/// How one input unit is processed from `m`.
#[verifier::opaque]
pub open spec fn unit_processed<T: TerminalControl>(
    m: DriverModel,
    before: Editor<T>,
    after: Editor<T>,
    unit: TextUnit,
    n: DriverModel,
    result: Result<Option<ReadStep>, DriverError>,
) -> bool {
    if before.configuration().buffering == Buffering::Character {
        completed(m, before, after, ReadResult::Character(unit), n, as_read_step(result))
    } else {
        match m.quoted {
            Some(count) => quoted_inserted(DriverModel { quoted: None, ..m }, before, after, unit, count, n, result),
            None => if m.searching is Some {
                let (search, count) = m.searching->0;
                local_finished(
                    DriverModel { searching: None, last_search: Some((search, unit)), ..m },
                    before,
                    after,
                    searched_to(before.model(), search, unit, count, m.beeps),
                    n,
                    as_read_step(result),
                )
            } else {
                let m1 = DriverModel { meta_next: false, ..m };
                let u = if m.meta_next {
                    meta_of(unit)
                } else {
                    unit
                };
                match counted_digit(m1, before.model().keymap_mode, u) {
                    Some(d) => match appended(m1, d) {
                        Some(v) => result == Ok::<Option<ReadStep>, DriverError>(None) && n == DriverModel {
                            repeat: Some(RepeatArgument::Explicit(v as usize)),
                            ..m1
                        } && quiet(before, after),
                        None => n == failed(m1) && (result matches Err(DriverError::WorkLimitExceeded { limit })
                            && limit == m.work_limit) && cooked_or_kept(before, after) && after.model()
                            == before.model(),
                    },
                    None => {
                        let keys = m1.keys.push(u);
                        let m2 = DriverModel { keys, ..m1 };
                        let table = before.table(before.model().keymap_mode);
                        if table.contains_key(keys) && !has_longer_key(table, keys) {
                            exact_dispatched(m2, table[keys], before, after, u, n, result)
                        } else if table.contains_key(keys) {
                            result == Ok::<Option<ReadStep>, DriverError>(None) && quiet(before, after) && (
                            n.ambiguous matches Some((b, p, v)) && same_binding(table[keys], b) && p == keys.len()
                                && v == u && n == DriverModel { ambiguous: n.ambiguous, ..m2 })
                        } else if has_longer_key(table, keys) {
                            result == Ok::<Option<ReadStep>, DriverError>(None) && n == m2 && quiet(before, after)
                        } else {
                            unbound_handled(m2, before, after, u, n, result)
                        }
                    },
                }
            },
        }
    }
}

/// Expanding a macro spends budget, or queues nothing.
pub proof fn lemma_macro_progress(m: DriverModel, text: Seq<TextUnit>, count: nat)
    requires
        macro_expanded(m, text, count) is Some,
    ensures
        budget(macro_expanded(m, text, count)->0) < budget(m) || (budget(macro_expanded(m, text, count)->0) == budget(m)
            && macro_expanded(m, text, count)->0.replay == m.replay),
{
    let added = text.len() * count;
    if added == 0 {
        assert(text.len() == 0 || count == 0) by (nonlinear_arith)
            requires
                added == text.len() * count,
                added == 0,
        ;
        if text.len() == 0 {
            assert(backwards(text) =~= Seq::<TextUnit>::empty());
            lemma_copies_of_nothing(backwards(text), count);
        } else {
            assert(copies(backwards(text), 0) =~= Seq::<TextUnit>::empty());
        }
        assert(m.replay + copies(backwards(text), count) =~= m.replay);
    } else {
        assert(added > 0) by (nonlinear_arith)
            requires
                added == text.len() * count,
                added != 0,
        ;
    }
}

/// A step made while processing input: never a read request, and the
/// driver is idle after a completion or a failure.
pub open spec fn settled_step(result: Result<ReadStep, DriverError>, n: DriverModel) -> bool {
    &&& !(result matches Ok(ReadStep::Read(_)))
    &&& result matches Ok(ReadStep::Complete(_)) ==> n.phase == Phase::Idle
    &&& result is Err ==> n.phase == Phase::Idle
}

/// The units of `s` from last to first.
pub open spec fn backwards(s: Seq<TextUnit>) -> Seq<TextUnit> {
    Seq::new(s.len(), |i: int| s[s.len() - 1 - i])
}

/// A step that may be none, as a step: `None` stands for no step made.
pub open spec fn as_read_step(r: Result<Option<ReadStep>, DriverError>) -> Result<ReadStep, DriverError> {
    match r {
        Ok(Some(step)) => Ok(step),
        Ok(None) => Err(DriverError::InvalidSequenceState),
        Err(e) => Err(e),
    }
}

/// An editor left as it was by a driver step: line state, terminal mode
/// and host requests.
pub open spec fn quiet<T: TerminalControl>(before: Editor<T>, after: Editor<T>) -> bool {
    &&& after.model() == before.model()
    &&& after.committed_mode() == before.committed_mode()
    &&& after.pending_effect() == before.pending_effect()
    &&& after.issued_effects() == before.issued_effects()
}

/// The Unicode control characters: U+0000 to U+001F and U+007F to U+009F.
pub open spec fn control_char(c: char) -> bool {
    (c as u32) < 0x20 || (0x7f <= (c as u32) && (c as u32) < 0xa0)
}

/// Whether `c` is a control character.
pub fn is_control_char(c: char) -> (control: bool)
    ensures
        control == control_char(c),
{
    let v = c as u32;
    v < 0x20 || (0x7f <= v && v < 0xa0)
}

/// Whether the driver runs an action itself.
pub fn is_local_action(action: &Action) -> (local: bool)
    ensures
        local == local_action(*action),
{
    match action {
        Action::Complete | Action::History(_) | Action::User(_) => false,
        _ => true,
    }
}

/// A macro of `text` expanded `repeat` times from `m`, or `None` past the
/// work limit.
pub open spec fn macro_expanded(m: DriverModel, text: Seq<TextUnit>, repeat: nat) -> Option<DriverModel> {
    if m.expanded + text.len() * repeat <= m.work_limit {
        Some(
            DriverModel {
                replay: m.replay + copies(backwards(text), repeat),
                expanded: m.expanded + text.len() * repeat,
                ..m
            },
        )
    } else {
        None
    }
}

/// A refused binding: the argument dropped and a notification queued
/// with the refresh.
pub open spec fn refused_binding<T: TerminalControl>(
    m: DriverModel,
    before: Editor<T>,
    after: Editor<T>,
    n: DriverModel,
    result: Result<Option<ReadStep>, DriverError>,
) -> bool {
    &&& after.model() == before.model()
    &&& command_displayed(
        DriverModel { repeat: None, beeps: one_more(m.beeps), ..m },
        before.pending_effect(),
        before.issued_effects(),
        after,
        n,
        as_read_step(result),
    )
}

/// The action that inserts the units `units`.
pub open spec fn insertion(units: Seq<TextUnit>) -> Action {
    Action::Insert(choose|t: Text| t@ == units)
}

/// How an argument command typed with `invoking` is dispatched from `m`.
pub open spec fn argument_dispatched<T: TerminalControl>(
    m: DriverModel,
    before: Editor<T>,
    after: Editor<T>,
    command: ArgumentCommand,
    invoking: TextUnit,
    n: DriverModel,
    result: Result<Option<ReadStep>, DriverError>,
) -> bool {
    let (m1, r) = argument_applied(m, command, invoking);
    match r {
        Ok(ArgumentStep::Continue) => result == Ok::<Option<ReadStep>, DriverError>(None) && n == m1 && quiet(before, after),
        Ok(ArgumentStep::Beep) => after.model() == before.model() && command_displayed(
            m1,
            before.pending_effect(),
            before.issued_effects(),
            after,
            n,
            as_read_step(result),
        ),
        Ok(ArgumentStep::InsertInvoking) => action_dispatched(
            m1,
            before,
            after,
            insertion(seq![invoking]),
            invoking,
            1,
            n,
            as_read_step(result),
        ),
        Err(limit) => n == failed(m) && (result matches Err(DriverError::WorkLimitExceeded { limit: l }) && l == limit)
            && cooked_or_kept(before, after) && after.model() == before.model(),
    }
}

/// How a complete binding typed with `invoking` is dispatched from `m`.
pub open spec fn binding_dispatched<T: TerminalControl>(
    m: DriverModel,
    before: Editor<T>,
    after: Editor<T>,
    binding: Binding,
    invoking: TextUnit,
    n: DriverModel,
    result: Result<Option<ReadStep>, DriverError>,
) -> bool {
    let taken = DriverModel { repeat: None, ..m };
    let count = count_or(m.repeat, 1);
    match binding {
        Binding::Action(a) => if local_action(a) {
            action_dispatched(taken, before, after, a, invoking, count as usize, n, as_read_step(result))
        } else {
            refused_binding(m, before, after, n, result)
        },
        Binding::Sequence(CommandSequence::Argument(c)) => argument_dispatched(m, before, after, c, invoking, n, result),
        Binding::Sequence(CommandSequence::MetaNext) => result == Ok::<Option<ReadStep>, DriverError>(None) && n
            == DriverModel { meta_next: true, ..m } && quiet(before, after),
        Binding::Sequence(CommandSequence::QuotedInsert) => if after.committed_mode() == TerminalMode::Quoted {
            result == Ok::<Option<ReadStep>, DriverError>(None) && n == DriverModel {
                quoted: Some(count),
                ..taken
            } && after.model() == before.model() && after.pending_effect() == before.pending_effect()
        } else {
            n == failed(taken) && (result matches Err(DriverError::Terminal(_))) && cooked_or_kept(before, after)
                && after.model() == before.model()
        },
        Binding::Sequence(CommandSequence::Vi(sequence)) => vi_dispatched(m, before, after, sequence, n, result),
        Binding::Macro(text) => match macro_expanded(taken, text@, count) {
            Some(expanded) => result == Ok::<Option<ReadStep>, DriverError>(None) && n == expanded && quiet(
                before,
                after,
            ),
            None => n == failed(taken) && (result matches Err(DriverError::WorkLimitExceeded { limit }) && limit
                == m.work_limit) && cooked_or_kept(before, after) && after.model() == before.model(),
        },
        _ => refused_binding(m, before, after, n, result),
    }
}

/// The unit after a quoted-insert command inserted `count` times from
/// `m`, once the terminal is back in editing mode.
pub open spec fn quoted_inserted<T: TerminalControl>(
    m: DriverModel,
    before: Editor<T>,
    after: Editor<T>,
    unit: TextUnit,
    count: nat,
    n: DriverModel,
    result: Result<Option<ReadStep>, DriverError>,
) -> bool {
    let (lm, r) = step(before.model(), insertion(copies(seq![unit], count)));
    &&& before.committed_mode() == TerminalMode::Editing ==> !(result matches Err(DriverError::Terminal(_)))
    &&& (result matches Err(DriverError::Terminal(_))) ==> n == failed(m) && after.model() == before.model()
        && cooked_or_kept(before, after)
    &&& !(result matches Err(DriverError::Terminal(_))) ==> match r {
        Err(e) => after.model() == lm && n == failed(m) && (result matches Err(DriverError::Editor(x)) && x == e),
        Ok(StepModel::Applied(o)) => after.model() == (if count > 1 { clamped(lm) } else { lm })
            && after.committed_mode() == TerminalMode::Editing && command_displayed(
            DriverModel { beeps: noted(m.beeps, o), ..m },
            before.pending_effect(),
            before.issued_effects(),
            after,
            n,
            as_read_step(result),
        ),
        Ok(_) => false,
    }
}

/// How a unit that completed no binding is handled from `m`, whose keys
/// already end with it.
pub open spec fn unbound_handled<T: TerminalControl>(
    m: DriverModel,
    before: Editor<T>,
    after: Editor<T>,
    unit: TextUnit,
    n: DriverModel,
    result: Result<Option<ReadStep>, DriverError>,
) -> bool {
    match m.ambiguous {
        Some((binding, prefix, invoking)) => binding_dispatched(
            DriverModel {
                keys: Seq::empty(),
                ambiguous: None,
                replay: m.replay + backwards(m.keys.subrange(prefix as int, m.keys.len() as int)),
                ..m
            },
            before,
            after,
            binding,
            invoking,
            n,
            result,
        ),
        None => {
            let printable = match unit {
                TextUnit::Scalar(c) => !control_char(c),
                _ => true,
            };
            if m.keys.len() == 1 && before.model().keymap_mode != KeymapMode::ViCommand && printable {
                action_dispatched(
                    DriverModel { keys: Seq::empty(), repeat: None, ..m },
                    before,
                    after,
                    insertion(seq![unit]),
                    unit,
                    count_or(m.repeat, 1) as usize,
                    n,
                    as_read_step(result),
                )
            } else {
                &&& after.model() == before.model()
                &&& after.pending_effect() == before.pending_effect()
                &&& display_issued(
                    DriverModel {
                        keys: Seq::empty(),
                        repeat: None,
                        display_kind: DisplayKind::Beep,
                        left: Seq::empty(),
                        right: None,
                        ..m
                    },
                    n,
                    as_read_step(result),
                )
            }
        },
    }
}

/// Inserting texts with the same units steps alike.
pub proof fn lemma_inserted_step_by_view(m: LineModel, text: Text, units: Seq<TextUnit>)
    requires
        text@ == units,
    ensures
        step(m, Action::Insert(text)) == step(m, insertion(units)),
{
    let chosen = choose|t: Text| t@ == units;
    assert(chosen@ == units);
    lemma_same_action_same_step(m, Action::Insert(text), Action::Insert(chosen));
}

/// Dispatching an insertion once depends only on its units.
pub proof fn lemma_insert_dispatch_by_view<T: TerminalControl>(
    m: DriverModel,
    before: Editor<T>,
    text: Text,
    chosen: Text,
    invoking: TextUnit,
)
    requires
        text@ == seq![invoking],
        chosen == choose|t: Text| t@ == seq![invoking],
    ensures
        forall|after: Editor<T>, n: DriverModel, result: Result<ReadStep, DriverError>|
            action_dispatched(m, before, after, Action::Insert(text), invoking, 1, n, result) ==> action_dispatched(
                m,
                before,
                after,
                insertion(seq![invoking]),
                invoking,
                1,
                n,
                result,
            ),
{
    lemma_insert_dispatch_counted_by_view(m, before, text, chosen, invoking, 1);
}

/// Dispatching an insertion depends only on its units.
pub proof fn lemma_insert_dispatch_counted_by_view<T: TerminalControl>(
    m: DriverModel,
    before: Editor<T>,
    text: Text,
    chosen: Text,
    invoking: TextUnit,
    count: usize,
)
    requires
        text@ == seq![invoking],
        chosen == choose|t: Text| t@ == seq![invoking],
    ensures
        forall|after: Editor<T>, n: DriverModel, result: Result<ReadStep, DriverError>|
            action_dispatched(m, before, after, Action::Insert(text), invoking, count, n, result) ==> action_dispatched(
                m,
                before,
                after,
                insertion(seq![invoking]),
                invoking,
                count,
                n,
                result,
            ),
{
    assert(chosen@ == seq![invoking]);
    lemma_repeated_by_view(before.model(), text, chosen, count as nat, m.beeps);
}

/// Repeating insertions with the same units runs alike.
pub proof fn lemma_repeated_by_view(lm: LineModel, a: Text, b: Text, remaining: nat, beeps: nat)
    requires
        a@ == b@,
    ensures
        repeated(lm, Action::Insert(a), remaining, beeps) == repeated(lm, Action::Insert(b), remaining, beeps),
    decreases remaining,
{
    lemma_same_action_same_step(lm, Action::Insert(a), Action::Insert(b));
    let (m1, r) = step(lm, Action::Insert(a));
    if remaining > 1 {
        match r {
            Ok(StepModel::Applied(o)) => {
                lemma_repeated_by_view(m1, a, b, (remaining - 1) as nat, noted(beeps, o));
            },
            _ => {},
        }
    }
}

impl ReadDriver {
    /// Begin Vi insertion: the cursor moves to the placement's boundary and
    /// the line enters insert input in the Vi insert keymap.
    fn begin_vi_insert<T: TerminalControl>(&mut self, editor: &mut Editor<T>, placement: ViInsertPlacement) -> (result:
        Result<ReadStep, DriverError>)
        requires
            old(editor).wf(),
        ensures
            settled_step(result, final(self)@),
            final(editor).wf(),
            editor_kept_but_line(*old(editor), *final(editor)),
            local_finished(
                old(self)@,
                *old(editor),
                *final(editor),
                vi_inserted(old(editor).model(), placement, old(self)@.beeps),
                final(self)@,
                result,
            ),
    {
        proof {
            editor.lemma_cursor_in_line();
        }
        let len = editor.line().len();
        let destination = match placement {
            ViInsertPlacement::AtCursor => editor.cursor(),
            ViInsertPlacement::AfterCursor => {
                let cursor = editor.cursor().get();
                let after = if cursor < len {
                    cursor + 1
                } else {
                    len
                };
                editor.line().index_within(after)
            },
            ViInsertPlacement::StartOfLine => match editor.motion_destination(Motion::StartOfLine, 1) {
                Ok(destination) => destination,
                Err(error) => {
                    return Err(self.fail(editor, DriverError::Editor(error)));
                },
            },
            ViInsertPlacement::EndOfLine => match editor.motion_destination(Motion::EndOfLine, 1) {
                Ok(destination) => destination,
                Err(error) => {
                    return Err(self.fail(editor, DriverError::Editor(error)));
                },
            },
        };
        match editor.execute(Action::Move(Motion::Absolute(destination))) {
            Ok(CommandStep::Applied(outcome)) => self.note_outcome(&outcome),
            Ok(_) => {
                return Err(self.fail(editor, DriverError::InvalidSequenceState));
            },
            Err(error) => {
                return Err(self.fail(editor, DriverError::Editor(error)));
            },
        }
        match editor.execute(Action::SetModes { input: InputMode::Insert, keymap: KeymapMode::ViInsert }) {
            Ok(CommandStep::Applied(outcome)) => self.note_outcome(&outcome),
            Ok(_) => {
                return Err(self.fail(editor, DriverError::InvalidSequenceState));
            },
            Err(error) => {
                return Err(self.fail(editor, DriverError::Editor(error)));
            },
        }
        self.schedule_command_display(editor)
    }

    /// Enter Vi command mode: insert input in the command keymap, with the
    /// cursor stepping back onto the unit before it unless it is at the
    /// start.
    fn enter_vi_command_mode<T: TerminalControl>(&mut self, editor: &mut Editor<T>) -> (result: Result<
        ReadStep,
        DriverError,
    >)
        requires
            old(editor).wf(),
        ensures
            settled_step(result, final(self)@),
            final(editor).wf(),
            editor_kept_but_line(*old(editor), *final(editor)),
            local_finished(
                old(self)@,
                *old(editor),
                *final(editor),
                vi_commanded(old(editor).model(), old(self)@.beeps),
                final(self)@,
                result,
            ),
    {
        match editor.execute(Action::SetModes { input: InputMode::Insert, keymap: KeymapMode::ViCommand }) {
            Ok(CommandStep::Applied(outcome)) => self.note_outcome(&outcome),
            Ok(_) => {
                return Err(self.fail(editor, DriverError::InvalidSequenceState));
            },
            Err(error) => {
                return Err(self.fail(editor, DriverError::Editor(error)));
            },
        }
        if editor.cursor().get() != 0 {
            match editor.execute(Action::Move(Motion::Character(Direction::Previous))) {
                Ok(CommandStep::Applied(outcome)) => self.note_outcome(&outcome),
                Ok(_) => {
                    return Err(self.fail(editor, DriverError::InvalidSequenceState));
                },
                Err(error) => {
                    return Err(self.fail(editor, DriverError::Editor(error)));
                },
            }
        }
        self.schedule_command_display(editor)
    }
}

impl ReadDriver {
    /// Move to the `count`th occurrence of `target` in the search's
    /// direction, landing on it or before it; no such occurrence beeps.
    fn run_character_search<T: TerminalControl>(
        &mut self,
        editor: &mut Editor<T>,
        search: CharacterSearch,
        target: TextUnit,
        count: usize,
    ) -> (result: Result<ReadStep, DriverError>)
        requires
            old(editor).wf(),
        ensures
            settled_step(result, final(self)@),
            final(editor).wf(),
            editor_kept_but_line(*old(editor), *final(editor)),
            local_finished(
                old(self)@,
                *old(editor),
                *final(editor),
                searched_to(old(editor).model(), search, target, count as nat, old(self)@.beeps),
                final(self)@,
                result,
            ),
    {
        proof {
            editor.lemma_cursor_in_line();
        }
        match character_destination(editor.line(), editor.cursor(), search, target, count) {
            None => {
                self.queue_beep();
            },
            Some(destination) => match editor.execute(Action::Move(Motion::Absolute(destination))) {
                Ok(CommandStep::Applied(outcome)) => self.note_outcome(&outcome),
                Ok(_) => {
                    return Err(self.fail(editor, DriverError::InvalidSequenceState));
                },
                Err(error) => {
                    return Err(self.fail(editor, DriverError::Editor(error)));
                },
            },
        }
        self.schedule_command_display(editor)
    }
}

/// The same search in the opposite direction.
pub open spec fn reversed_search(search: CharacterSearch) -> CharacterSearch {
    CharacterSearch {
        direction: match search.direction {
            Direction::Previous => Direction::Next,
            Direction::Next => Direction::Previous,
        },
        landing: search.landing,
    }
}

/// A character search from `lm`.
pub open spec fn searched_to(lm: LineModel, search: CharacterSearch, target: TextUnit, count: nat, beeps: nat) -> Result<
    (LineModel, nat),
    (LineModel, Error),
> {
    match occurrence_after(lm.line, lm.cursor as int, search.direction, target, count) {
        None => Ok((lm, one_more(beeps))),
        Some(p) => {
            let landing = landing_position(lm.line, p, search);
            if 0 <= landing <= lm.line.len() {
                Ok((LineModel { cursor: landing as nat, ..lm }, beeps))
            } else {
                Ok((lm, one_more(beeps)))
            }
        },
    }
}

impl ReadDriver {
    /// Run a Vi sequence: insertion and command mode switch the keymap, a
    /// character search waits for its target, and a repeated search runs
    /// the last one again; the other sequences are refused with a
    /// notification.
    #[verifier::rlimit(40)]
    #[verifier::spinoff_prover]
    fn dispatch_vi_sequence<T: TerminalControl>(&mut self, editor: &mut Editor<T>, sequence: ViSequence) -> (result:
        Result<Option<ReadStep>, DriverError>)
        requires
            old(editor).wf(),
        ensures
            !(result matches Ok(None)) ==> settled_step(as_read_step(result), final(self)@),
            final(editor).wf(),
            final(editor).display() == old(editor).display(),
            final(editor).configuration() == old(editor).configuration(),
            vi_dispatched(old(self)@, *old(editor), *final(editor), sequence, final(self)@, result),
            final(self)@.work_limit == old(self)@.work_limit,
            old(self)@.ambiguous is None ==> final(self)@.ambiguous is None,
    {
        match sequence {
            ViSequence::Insert(placement) => {
                self.repeat_argument = None;
                match self.begin_vi_insert(editor, placement) {
                    Ok(step) => Ok(Some(step)),
                    Err(error) => Err(error),
                }
            },
            ViSequence::CommandMode => {
                self.repeat_argument = None;
                match self.enter_vi_command_mode(editor) {
                    Ok(step) => Ok(Some(step)),
                    Err(error) => Err(error),
                }
            },
            ViSequence::CharacterSearch(search) => {
                let count = self.take_repeat(None);
                self.character_search = Some((search, count));
                Ok(None)
            },
            ViSequence::RepeatCharacterSearch(repetition) => {
                let count = self.take_repeat(None);
                match self.last_character_search {
                    None => {
                        self.queue_beep();
                        match self.schedule_command_display(editor) {
                            Ok(step) => Ok(Some(step)),
                            Err(error) => Err(error),
                        }
                    },
                    Some((stored, target)) => {
                        let search = match repetition {
                            SearchRepetition::SameDirection => stored,
                            SearchRepetition::OppositeDirection => stored.reversed(),
                        };
                        match self.run_character_search(editor, search, target, count) {
                            Ok(step) => Ok(Some(step)),
                            Err(error) => Err(error),
                        }
                    },
                }
            },
            _ => self.refuse_binding(editor),
        }
    }
}

/// How a Vi sequence is dispatched from `m`.
pub open spec fn vi_dispatched<T: TerminalControl>(
    m: DriverModel,
    before: Editor<T>,
    after: Editor<T>,
    sequence: ViSequence,
    n: DriverModel,
    result: Result<Option<ReadStep>, DriverError>,
) -> bool {
    let taken = DriverModel { repeat: None, ..m };
    let count = count_or(m.repeat, 1);
    match sequence {
        ViSequence::Insert(placement) => local_finished(
            taken,
            before,
            after,
            vi_inserted(before.model(), placement, m.beeps),
            n,
            as_read_step(result),
        ),
        ViSequence::CommandMode => local_finished(
            taken,
            before,
            after,
            vi_commanded(before.model(), m.beeps),
            n,
            as_read_step(result),
        ),
        ViSequence::CharacterSearch(search) => result == Ok::<
            Option<ReadStep>,
            DriverError,
        >(None) && n == DriverModel { searching: Some((search, count)), ..taken } && quiet(before, after),
        ViSequence::RepeatCharacterSearch(repetition) => match m.last_search {
            None => after.model() == before.model() && command_displayed(
                DriverModel { beeps: one_more(m.beeps), ..taken },
                before.pending_effect(),
                before.issued_effects(),
                after,
                n,
                as_read_step(result),
            ),
            Some((stored, target)) => local_finished(
                taken,
                before,
                after,
                searched_to(
                    before.model(),
                    if repetition is SameDirection {
                        stored
                    } else {
                        reversed_search(stored)
                    },
                    target,
                    count,
                    m.beeps,
                ),
                n,
                as_read_step(result),
            ),
        },
        _ => refused_binding(m, before, after, n, result),
    }
}

/// Vi insertion begun from `lm` at `placement`.
pub open spec fn vi_inserted(lm: LineModel, placement: ViInsertPlacement, beeps: nat) -> Result<
    (LineModel, nat),
    (LineModel, Error),
> {
    let destination: Result<nat, Error> = match placement {
        ViInsertPlacement::AtCursor => Ok(lm.cursor),
        ViInsertPlacement::AfterCursor => Ok(if lm.cursor < lm.line.len() { lm.cursor + 1 } else { lm.line.len() }),
        ViInsertPlacement::StartOfLine => repeated_position_of(lm, Motion::StartOfLine, 1),
        ViInsertPlacement::EndOfLine => repeated_position_of(lm, Motion::EndOfLine, 1),
    };
    match destination {
        Err(e) => Err((lm, e)),
        Ok(d) => if d <= lm.line.len() {
            Ok((LineModel { cursor: d, input_mode: InputMode::Insert, keymap_mode: KeymapMode::ViInsert, ..lm }, beeps))
        } else {
            Err((lm, Error::TextIndexOutOfBounds { index: d as usize, len: lm.line.len() as usize }))
        },
    }
}

/// Vi command mode entered from `lm`.
pub open spec fn vi_commanded(lm: LineModel, beeps: nat) -> Result<(LineModel, nat), (LineModel, Error)> {
    let lm1 = LineModel { input_mode: InputMode::Insert, keymap_mode: KeymapMode::ViCommand, ..lm };
    if lm.cursor == 0 {
        Ok((lm1, beeps))
    } else {
        match step(lm1, Action::Move(Motion::Character(Direction::Previous))) {
            (lm2, Err(e)) => Err((lm2, e)),
            (lm2, Ok(StepModel::Applied(o))) => Ok((lm2, noted(beeps, o))),
            (lm2, Ok(_)) => Ok((lm2, beeps)),
        }
    }
}

/// One notification more, saturating at the largest count.
pub open spec fn one_more(beeps: nat) -> nat {
    if beeps < usize::MAX {
        beeps + 1
    } else {
        beeps
    }
}

/// How a local command ends: refreshed from the line state and the
/// notifications it leaves, or failed with the line state it reached.
pub open spec fn local_finished<T: TerminalControl>(
    m: DriverModel,
    before: Editor<T>,
    after: Editor<T>,
    end: Result<(LineModel, nat), (LineModel, Error)>,
    n: DriverModel,
    result: Result<ReadStep, DriverError>,
) -> bool {
    match end {
        Ok((lm, b)) => after.model() == lm && command_displayed(
            DriverModel { beeps: b, ..m },
            before.pending_effect(),
            before.issued_effects(),
            after,
            n,
            result,
        ),
        Err((lm, e)) => after.model() == lm && n == failed(m) && cooked_or_kept(before, after) && (result matches Err(DriverError::Editor(x)) && x
            == e),
    }
}

/// A counted motion from `lm`.
pub open spec fn counted_move(lm: LineModel, motion: Motion, repeat: usize, beeps: nat) -> Result<
    (LineModel, nat),
    (LineModel, Error),
> {
    let origin = lm.cursor;
    let rightward = motion == Motion::Character(Direction::Next) || (motion matches Motion::Word { direction, .. }
        && direction == Direction::Next);
    let boundary = lm.keymap_mode == KeymapMode::ViCommand && rightward && lm.line.len() > 0 && origin
        >= lm.line.len() - 1;
    let destination = if boundary {
        Ok(origin)
    } else {
        repeated_position_of(lm, motion, repeat)
    };
    match destination {
        Err(e) => Err((lm, e)),
        Ok(d) => if d == origin && (motion is Character || motion is Word || motion is Line) {
            Ok((clamped(lm), one_more(beeps)))
        } else if d <= lm.line.len() {
            Ok((clamped(LineModel { cursor: d, ..lm }), beeps))
        } else {
            Err((lm, Error::TextIndexOutOfBounds { index: d as usize, len: lm.line.len() as usize }))
        },
    }
}

/// A counted character delete from `lm`.
pub open spec fn counted_delete(lm: LineModel, direction: Direction, repeat: usize, beeps: nat) -> Result<
    (LineModel, nat),
    (LineModel, Error),
> {
    match repeated_position_of(lm, Motion::Character(direction), repeat) {
        Err(e) => Err((lm, e)),
        Ok(d) => if d == lm.cursor {
            Ok((clamped(lm), one_more(beeps)))
        } else {
            let (start, end) = match direction {
                Direction::Previous => (d, lm.cursor),
                Direction::Next => (lm.cursor, d),
            };
            if start <= end <= lm.line.len() {
                Ok((clamped(edited(lm, start, end, Seq::empty())), beeps))
            } else {
                Err((lm, Error::InvalidTextSpan { start: start as usize, end: end as usize, len: lm.line.len() as usize }))
            }
        },
    }
}

/// A transposition from `lm`.
pub open spec fn transpose_dispatched(lm: LineModel, beeps: nat) -> Result<(LineModel, nat), (LineModel, Error)> {
    if lm.line.len() < 2 {
        Ok((lm, one_more(beeps)))
    } else if lm.cursor == 0 {
        Ok((LineModel { cursor: 1, ..lm }, one_more(beeps)))
    } else {
        match step(lm, Action::TransposeCharacters) {
            (m2, Err(e)) => Err((m2, e)),
            (m2, Ok(StepModel::Applied(o))) => Ok((clamped(m2), noted(beeps, o))),
            (m2, Ok(_)) => Ok((clamped(m2), beeps)),
        }
    }
}

/// Whether an action repeats with a count: insertions, delete-or-end,
/// and word kills and word transforms.
pub open spec fn repeats_with_count(action: Action) -> bool {
    action is Insert || action is DeleteOrEndOfInput || (action matches Action::Kill(target) && target is Word) || (
    action matches Action::Transform { target, .. } && target is Word)
}

/// How dispatching a local action `repeat` times ends.
pub open spec fn action_dispatched<T: TerminalControl>(
    m: DriverModel,
    before: Editor<T>,
    after: Editor<T>,
    action: Action,
    invoking: TextUnit,
    repeat: usize,
    n: DriverModel,
    result: Result<ReadStep, DriverError>,
) -> bool {
    if repeat == 0 {
        after.model() == before.model() && command_displayed(
            m,
            before.pending_effect(),
            before.issued_effects(),
            after,
            n,
            result,
        )
    } else if !local_action(action) {
        after.model() == before.model() && command_displayed(
            DriverModel { beeps: one_more(m.beeps), ..m },
            before.pending_effect(),
            before.issued_effects(),
            after,
            n,
            result,
        )
    } else {
        match action {
            Action::Move(motion) => local_finished(m, before, after, counted_move(before.model(), motion, repeat, m.beeps), n, result),
            Action::Delete(EditTarget::Character(direction)) => local_finished(
                m,
                before,
                after,
                counted_delete(before.model(), direction, repeat, m.beeps),
                n,
                result,
            ),
            Action::TransposeCharacters => local_finished(m, before, after, transpose_dispatched(before.model(), m.beeps), n, result),
            _ => repetition_finished(
                m,
                before,
                after,
                action,
                invoking,
                if repeats_with_count(action) { repeat as nat } else { 1 },
                n,
                result,
            ),
        }
    }
}

/// Actions the line state applies on its own, with no host service.
pub open spec fn local_action(action: Action) -> bool {
    !(action is Complete) && !(action is History) && !(action is User)
}

/// Whether an action moves or rewrites what the cursor rests on.
pub open spec fn action_refreshes(action: Action) -> bool {
    action is Delete || action is DeleteOrEndOfInput || action is Kill || action is Yank || action is ExchangeMark
        || action is Transform || action is TransposeCharacters || action is Undo || action is Redo
        || action is Refresh
}

/// Two actions that do the same: equal, or carrying texts with the same
/// units.
pub open spec fn same_action(a: Action, b: Action) -> bool {
    match a {
        Action::Insert(x) => b matches Action::Insert(y) && x@ == y@,
        Action::Search { pattern: p, direction: d } => b matches Action::Search { pattern: q, direction: e } && p@
            == q@ && d == e,
        _ => a == b,
    }
}

/// Actions that do the same take the same step.
pub proof fn lemma_same_action_same_step(m: LineModel, a: Action, b: Action)
    requires
        same_action(a, b),
    ensures
        step(m, a) == step(m, b),
{
}

/// A local action always applies or fails; it never asks for a host
/// service.
pub proof fn lemma_local_action_applies(m: LineModel, action: Action)
    requires
        local_action(action),
    ensures
        step(m, action).1 matches Ok(s) ==> s is Applied,
{
}

/// A copy of an action that does the same.
pub fn copy_action(action: &Action) -> (copy: Action)
    ensures
        same_action(*action, copy),
{
    match action {
        Action::Noop => Action::Noop,
        Action::Insert(text) => Action::Insert(text.duplicate()),
        Action::Move(motion) => Action::Move(*motion),
        Action::Delete(target) => Action::Delete(*target),
        Action::DeleteOrEndOfInput => Action::DeleteOrEndOfInput,
        Action::Kill(target) => Action::Kill(*target),
        Action::Copy(target) => Action::Copy(*target),
        Action::Yank(placement) => Action::Yank(*placement),
        Action::SetMark => Action::SetMark,
        Action::ExchangeMark => Action::ExchangeMark,
        Action::Transform { target, transform } => Action::Transform { target: *target, transform: *transform },
        Action::TransposeCharacters => Action::TransposeCharacters,
        Action::Search { pattern, direction } => Action::Search { pattern: pattern.duplicate(), direction: *direction },
        Action::RepeatSearch(direction) => Action::RepeatSearch(*direction),
        Action::SetInputMode(mode) => Action::SetInputMode(*mode),
        Action::ToggleInputMode => Action::ToggleInputMode,
        Action::SetKeymap(mode) => Action::SetKeymap(*mode),
        Action::SetModes { input, keymap } => Action::SetModes { input: *input, keymap: *keymap },
        Action::AcceptLine => Action::AcceptLine,
        Action::EndOfInput => Action::EndOfInput,
        Action::Complete => Action::Complete,
        Action::History(direction) => Action::History(*direction),
        Action::Undo => Action::Undo,
        Action::Redo => Action::Redo,
        Action::Refresh(refresh) => Action::Refresh(*refresh),
        Action::User(name) => Action::User(name.duplicate()),
    }
}

/// A queued notification more when the outcome asks for a beep.
pub open spec fn noted(beeps: nat, o: OutcomeModel) -> nat {
    if o == OutcomeModel::Refresh(Refresh::Beep) && beeps < usize::MAX {
        beeps + 1
    } else {
        beeps
    }
}

/// Applying a local action `remaining` more times from `m`: the line state
/// after the last application, and its outcome with the notifications
/// queued so far, or the first failure. An accepted line or the end of
/// input stops the repetition early.
pub open spec fn repeated(m: LineModel, action: Action, remaining: nat, beeps: nat) -> (
    LineModel,
    Result<(OutcomeModel, nat), Error>,
)
    decreases remaining,
{
    let (m1, r) = step(m, action);
    match r {
        Err(e) => (m1, Err(e)),
        Ok(StepModel::Applied(o)) => if o is Accepted || o is EndOfInput {
            (m1, Ok((o, beeps)))
        } else if remaining <= 1 {
            (m1, Ok((o, noted(beeps, o))))
        } else {
            repeated(m1, action, (remaining - 1) as nat, noted(beeps, o))
        },
        Ok(_) => (m1, Ok((OutcomeModel::Continue, beeps))),
    }
}

/// The line state with a Vi command-mode cursor kept on the line.
pub open spec fn clamped(m: LineModel) -> LineModel {
    if m.keymap_mode == KeymapMode::ViCommand && m.line.len() > 0 && m.cursor >= m.line.len() {
        LineModel { cursor: (m.line.len() - 1) as nat, ..m }
    } else {
        m
    }
}

/// Editor parts that executing actions keeps: display, keymaps, policy
/// and validity.
pub open spec fn editor_kept_but_line<T: TerminalControl>(before: Editor<T>, after: Editor<T>) -> bool {
    &&& after.display() == before.display()
    &&& after.configuration() == before.configuration()
    &&& after.active() == before.active()
    &&& forall|mode: KeymapMode| after.table(mode) == before.table(mode)
}

/// A refresh after a command, with the queued notifications, requested
/// from `m`.
pub open spec fn command_displayed<T: TerminalControl>(
    m: DriverModel,
    pending: Option<u64>,
    issued: u64,
    after: Editor<T>,
    n: DriverModel,
    result: Result<ReadStep, DriverError>,
) -> bool {
    let kind = if m.beeps != 0 {
        DisplayKind::RefreshAndBeep(m.beeps as usize)
    } else {
        DisplayKind::Refresh
    };
    prompt_requested(DriverModel { beeps: 0, display_kind: kind, ..m }, pending, issued, after, PromptSide::Left, n, result)
}

/// How a repetition of `action` invoked by `invoking` ends, from driver
/// state `m` and editor `before`.
pub open spec fn repetition_finished<T: TerminalControl>(
    m: DriverModel,
    before: Editor<T>,
    after: Editor<T>,
    action: Action,
    invoking: TextUnit,
    count: nat,
    n: DriverModel,
    result: Result<ReadStep, DriverError>,
) -> bool {
    let (m_end, r) = repeated(before.model(), action, count, m.beeps);
    match r {
        Err(e) => after.model() == m_end && n == failed(m) && cooked_or_kept(before, after) && (result matches Err(DriverError::Editor(x)) && x == e),
        Ok((o, b)) => {
            let base = DriverModel { beeps: b, ..m };
            if action is DeleteOrEndOfInput && o is EndOfInput {
                &&& after.model() == m_end
                &&& display_issued(
                    DriverModel {
                        completion: Some(ReadResult::EndOfInput),
                        display_kind: DisplayKind::Echo(invoking),
                        left: Seq::empty(),
                        right: None,
                        ..base
                    },
                    n,
                    result,
                )
            } else if o is Accepted {
                let (expected, s) = requested(base, before.pending_effect(), before.issued_effects(), EffectKind::RecordHistory);
                &&& after.model() == m_end
                &&& n == expected
                &&& s matches Ok(t) ==> (result matches Ok(ReadStep::RecordHistory(p)) && p.step_view() == t
                    && p.request_view().line@ == o->Accepted_0)
                &&& s matches Err(x) ==> (result matches Err(y) && y == x)
            } else if o is EndOfInput {
                &&& after.model() == m_end
                &&& completed(base, before, after, ReadResult::EndOfInput, n, result)
            } else {
                &&& after.model() == (if action_refreshes(action) { clamped(m_end) } else { m_end })
                &&& command_displayed(base, before.pending_effect(), before.issued_effects(), after, n, result)
            }
        },
    }
}

/// After a failure the terminal is back in cooked mode, unless the
/// controller refused, when it keeps its mode.
pub open spec fn cooked_or_kept<T: TerminalControl>(before: Editor<T>, after: Editor<T>) -> bool {
    after.committed_mode() == TerminalMode::Cooked || after.committed_mode() == before.committed_mode()
}

/// The step kind of a prompt request for `side`.
pub open spec fn prompt_kind(side: PromptSide) -> EffectKind {
    match side {
        PromptSide::Left => EffectKind::PromptLeft,
        PromptSide::Right => EffectKind::PromptRight,
    }
}

/// The driver asked an editor with pending request `pending` and last
/// issued number `issued` (which became `after`) for the prompt on
/// `side`, starting from `m` and ending in `n` with `result`.
pub open spec fn prompt_requested<T: TerminalControl>(
    m: DriverModel,
    pending: Option<u64>,
    issued: u64,
    after: Editor<T>,
    side: PromptSide,
    n: DriverModel,
    result: Result<ReadStep, DriverError>,
) -> bool {
    let (expected, r) = requested(m, pending, issued, prompt_kind(side));
    &&& n == expected
    &&& r matches Ok(s) ==> (result matches Ok(ReadStep::Prompt(p)) && p.step_view() == s && p.request_view()
        == (PromptEffect { side }) && after.pending_effect() == Some(p.effect_issued()))
    &&& r matches Err(x) ==> (result matches Err(y) && y == x)
}

/// The driver issued a display from `m`, ending in `n` with `result`.
pub open spec fn display_issued(m: DriverModel, n: DriverModel, result: Result<ReadStep, DriverError>) -> bool {
    let (expected, r) = display_made(m);
    &&& n == expected
    &&& r matches Ok(s) ==> (result matches Ok(ReadStep::Display(d)) && d.step_view() == s && d.kind_view()
        == m.display_kind && d.left_view() == m.left && d.right_view() == m.right)
    &&& r matches Err(x) ==> (result matches Err(y) && y == x)
}

/// The read completed with `outcome` from `m`: idle and cleared, and
/// owed success unless line buffering could not restore cooked mode.
pub open spec fn completed<T: TerminalControl>(
    m: DriverModel,
    before: Editor<T>,
    after: Editor<T>,
    outcome: ReadResult,
    n: DriverModel,
    result: Result<ReadStep, DriverError>,
) -> bool {
    &&& n == ended(m, before.configuration().buffering == Buffering::Line)
    &&& before.configuration().buffering != Buffering::Line || after.committed_mode() == TerminalMode::Cooked
        ==> (result matches Ok(ReadStep::Complete(r)) && r == outcome)
    &&& before.configuration().buffering == Buffering::Line && after.committed_mode() != TerminalMode::Cooked
        ==> result matches Err(DriverError::Terminal(_))
}

/// What an accepted size report does, from the advancing state `m`.
pub open spec fn resize_answered<T: TerminalControl>(
    m: DriverModel,
    before: Editor<T>,
    after: Editor<T>,
    response: EffectResult<ScreenSize>,
    n: DriverModel,
    result: Result<ReadStep, DriverError>,
) -> bool {
    let refresh = DriverModel { display_kind: DisplayKind::Refresh, ..m };
    let resized = match m.resize_signal {
        Some(signal) => signal_requested(
            DriverModel { resize_signal: None, ..m },
            None,
            before.issued_effects(),
            after,
            signal,
            n,
            result,
        ),
        None => prompt_requested(refresh, None, before.issued_effects(), after, PromptSide::Left, n, result),
    };
    match response {
        Ok(_) => if before.display() is None {
            n == failed(m) && cooked_or_kept(before, after) && result matches Err(DriverError::Render(RenderError::DisplayNotConfigured))
        } else {
            resized
        },
        Err(HostFailure::Unavailable) => resized,
        Err(HostFailure::Interrupted) => completed(
            m,
            before,
            after,
            ReadResult::Interrupted(ReadInterrupt::Host),
            n,
            result,
        ),
        Err(failure) => n == failed(m) && cooked_or_kept(before, after) && (result matches Err(DriverError::Host(h)) && h == failure),
    }
}

/// The driver asked an editor with pending request `pending` and last
/// issued number `issued` (which became `after`) to propagate `signal`,
/// starting from `m` and ending in `n` with `result`.
pub open spec fn signal_requested<T: TerminalControl>(
    m: DriverModel,
    pending: Option<u64>,
    issued: u64,
    after: Editor<T>,
    signal: Signal,
    n: DriverModel,
    result: Result<ReadStep, DriverError>,
) -> bool {
    let (expected, r) = requested(m, pending, issued, EffectKind::Signal);
    &&& n == expected
    &&& r matches Ok(s) ==> (result matches Ok(ReadStep::Signal(p)) && p.step_view() == s && p.request_view()
        == (SignalEffect { signal }) && after.pending_effect() == Some(p.effect_issued()))
    &&& r matches Err(x) ==> (result matches Err(y) && y == x)
}

/// What an accepted prompt does, from the advancing state `m`.
pub open spec fn prompt_answered<T: TerminalControl>(
    m: DriverModel,
    before: Editor<T>,
    after: Editor<T>,
    side: PromptSide,
    response: EffectResult<Prompt>,
    n: DriverModel,
    result: Result<ReadStep, DriverError>,
) -> bool {
    let text: Option<Seq<PromptPart>> = match response {
        Ok(p) => Some(p@),
        Err(HostFailure::Unavailable) => Some(Seq::empty()),
        Err(HostFailure::Cancelled) => Some(Seq::empty()),
        _ => None,
    };
    match text {
        Some(parts) => match side {
            PromptSide::Left => prompt_requested(
                DriverModel { left: parts, ..m },
                None,
                before.issued_effects(),
                after,
                PromptSide::Right,
                n,
                result,
            ),
            PromptSide::Right => display_issued(
                DriverModel { right: if parts.len() == 0 { None } else { Some(parts) }, ..m },
                n,
                result,
            ),
        },
        None => match response {
            Err(HostFailure::Interrupted) => completed(
                m,
                before,
                after,
                ReadResult::Interrupted(ReadInterrupt::Host),
                n,
                result,
            ),
            Err(failure) => n == failed(m) && cooked_or_kept(before, after) && (result matches Err(DriverError::Host(h)) && h == failure),
            Ok(_) => false,
        },
    }
}


/// The decimal number the digits `ds` spell, most significant first.
pub open spec fn decimal(ds: Seq<nat>) -> nat
    decreases ds.len(),
{
    if ds.len() == 0 {
        0
    } else {
        decimal(ds.drop_last()) * 10 + ds.last()
    }
}

/// The state after appending each digit of `ds` in turn, or `None` once
/// one is refused.
pub open spec fn digits_appended(m: DriverModel, ds: Seq<nat>) -> Option<DriverModel>
    decreases ds.len(),
{
    if ds.len() == 0 {
        Some(m)
    } else {
        match digits_appended(m, ds.drop_last()) {
            Some(before) => match appended(before, ds.last()) {
                Some(v) => Some(DriverModel { repeat: Some(RepeatArgument::Explicit(v as usize)), ..before }),
                None => None,
            },
            None => None,
        }
    }
}

/// The step a phase waits on, if any.
pub open spec fn phase_step(phase: Phase) -> Option<u64> {
    match phase {
        Phase::Effect { step, .. } => Some(step),
        Phase::Display { step } => Some(step),
        _ => None,
    }
}

/// Typing digits with no argument active builds the argument as the
/// decimal number they spell, as long as that number stays within the
/// work limit.
pub proof fn law_argument_digits_spell_a_decimal(m: DriverModel, ds: Seq<nat>)
    requires
        m.repeat is None,
        ds.len() > 0,
        forall|i: int| 0 <= i < ds.len() ==> #[trigger] ds[i] <= 9,
        decimal(ds) <= m.work_limit,
        m.work_limit <= usize::MAX,
    ensures
        digits_appended(m, ds) == Some(DriverModel { repeat: Some(RepeatArgument::Explicit(decimal(ds) as usize)), ..m }),
    decreases ds.len(),
{
    let prefix = ds.drop_last();
    if prefix.len() == 0 {
        assert(decimal(prefix) == 0);
    } else {
        assert(decimal(prefix) <= decimal(ds));
        law_argument_digits_spell_a_decimal(m, prefix);
    }
}

/// A repeat argument serves one command: once taken, the next command
/// without an explicit count runs once.
pub proof fn law_argument_serves_one_command(m: DriverModel)
    ensures
        count_or(DriverModel { repeat: None, ..m }.repeat, 1) == 1,
        count_or(DriverModel { repeat: None, ..m }.repeat, 0) == 0,
{
}

/// Every newly issued step, of a host request or of a display, is greater
/// than any step the driver waited on before, so a response to an earlier
/// step is refused as stale.
pub proof fn law_issued_steps_are_fresh(m: DriverModel, pending: Option<u64>, issued: u64, kind: EffectKind)
    requires
        phase_step(m.phase) matches Some(s) ==> s <= m.next_step,
    ensures
        requested(m, pending, issued, kind).1 matches Ok(t) ==> (t > m.next_step && (phase_step(m.phase) matches Some(
            s,
        ) ==> s != t) && phase_step(requested(m, pending, issued, kind).0.phase) == Some(t)),
        display_made(m).1 matches Ok(t) ==> (t > m.next_step && (phase_step(m.phase) matches Some(s) ==> s != t)
            && phase_step(display_made(m).0.phase) == Some(t)),
        phase_step(requested(m, pending, issued, kind).0.phase) matches Some(s) ==> s <= requested(
            m,
            pending,
            issued,
            kind,
        ).0.next_step,
        phase_step(display_made(m).0.phase) matches Some(s) ==> s <= display_made(m).0.next_step,
{
}

/// A failure leaves the driver ready for a new read: idle, with no keys,
/// argument, meta prefix, notification or prompt left over.
pub proof fn law_failure_leaves_driver_reusable(m: DriverModel)
    ensures
        failed(m).phase == Phase::Idle,
        failed(m).keys.len() == 0,
        failed(m).repeat is None,
        !failed(m).meta_next,
        failed(m).beeps == 0,
        failed(m).next_step == m.next_step,
        failed(m).work_limit == m.work_limit,
{
}


/// `text` written `n` times in a row.
pub open spec fn copies(text: Seq<TextUnit>, n: nat) -> Seq<TextUnit>
    decreases n,
{
    if n == 0 {
        Seq::empty()
    } else {
        copies(text, (n - 1) as nat) + text
    }
}

/// A counted insertion in insert mode writes the text that many times at
/// the cursor, leaves the cursor after the last copy, and queues no
/// notification.
pub proof fn law_counted_insertion_writes_each_copy(m: LineModel, text: Text, n: nat, beeps: nat)
    requires
        m.cursor <= m.line.len(),
        m.input_mode == InputMode::Insert,
        n >= 1,
    ensures
        ({
            let (after, r) = repeated(m, Action::Insert(text), n, beeps);
            &&& after.line == m.line.subrange(0, m.cursor as int) + copies(text@, n) + m.line.subrange(
                m.cursor as int,
                m.line.len() as int,
            )
            &&& after.cursor == m.cursor + n * text@.len()
            &&& after.input_mode == m.input_mode
            &&& r == Ok::<(OutcomeModel, nat), Error>((OutcomeModel::Continue, beeps))
        }),
    decreases n,
{
    let c = m.cursor as int;
    let (m1, _) = step(m, Action::Insert(text));
    if text@.len() == 0 {
        assert(m1 == m);
        lemma_copies_of_nothing(text@, n);
        assert(m.line.subrange(0, c) + copies(text@, n) + m.line.subrange(c, m.line.len() as int) =~= m.line);
        assert(n * text@.len() == 0) by (nonlinear_arith)
            requires
                text@.len() == 0,
        ;
        if n > 1 {
            law_counted_insertion_writes_each_copy(m, text, (n - 1) as nat, beeps);
        }
    } else {
        assert(m1.line == m.line.subrange(0, c) + text@ + m.line.subrange(c, m.line.len() as int));
        assert(m1.cursor == m.cursor + text@.len());
        if n == 1 {
            assert(copies(text@, 1) =~= text@) by {
                assert(copies(text@, 0) =~= Seq::<TextUnit>::empty());
            }
            assert(n * text@.len() == text@.len()) by (nonlinear_arith)
                requires
                    n == 1,
            ;
        } else {
            law_counted_insertion_writes_each_copy(m1, text, (n - 1) as nat, beeps);
            let rest = copies(text@, (n - 1) as nat);
            let c1 = m1.cursor as int;
            lemma_copies_prepend(text@, (n - 1) as nat);
            assert(m1.line.subrange(0, c1) =~= m.line.subrange(0, c) + text@);
            assert(m1.line.subrange(c1, m1.line.len() as int) =~= m.line.subrange(c, m.line.len() as int));
            assert(m.line.subrange(0, c) + text@ + rest + m.line.subrange(c, m.line.len() as int) =~= m.line.subrange(
                0,
                c,
            ) + copies(text@, n) + m.line.subrange(c, m.line.len() as int));
            assert((n - 1) * text@.len() + text@.len() == n * text@.len()) by (nonlinear_arith);
        }
    }
}

/// Copies of an empty text are empty.
pub proof fn lemma_copies_of_nothing(text: Seq<TextUnit>, n: nat)
    requires
        text.len() == 0,
    ensures
        copies(text, n) =~= Seq::<TextUnit>::empty(),
    decreases n,
{
    if n > 0 {
        lemma_copies_of_nothing(text, (n - 1) as nat);
    }
}

/// One copy in front of `n` copies is `n + 1` copies.
pub proof fn lemma_copies_prepend(text: Seq<TextUnit>, n: nat)
    ensures
        text + copies(text, n) =~= copies(text, n + 1),
    decreases n,
{
    if n > 0 {
        lemma_copies_prepend(text, (n - 1) as nat);
        assert(text + copies(text, n) =~= text + copies(text, (n - 1) as nat) + text);
    } else {
        assert(copies(text, 0) =~= Seq::<TextUnit>::empty());
        assert(copies(text, 1) =~= copies(text, 0) + text);
    }
}

} // verus!
