//! Typed suspension points for host-controlled editor operations.
//!
//! A `Suspension` owns its request and holds no borrow of the editor, so
//! host code can run before the editor is borrowed again to resume.

use super::completion::{CompletionCandidates, CompletionQuery};
use super::sealed::Sealed;
use crate::domain::message::{into_string, push_str};
use crate::domain::{CommandName, Direction, Outcome, Prompt, ScreenSize, Signal, Text, TextUnit};
use std::sync::Arc;
use vstd::prelude::*;

verus! {

/// A host request with the one response type it accepts.
pub trait Effect: Sealed {
    /// The response that resumes this request.
    type Response;
}

/// A response from host-controlled work.
pub type EffectResult<T> = Result<T, HostFailure>;

/// Why a host operation produced no normal value.
#[derive(Debug, Clone, PartialEq, Eq, Hash)]
pub enum HostFailure {
    /// The host cancelled the operation.
    Cancelled,
    /// A signal or similar interruption stopped it.
    Interrupted,
    /// The host does not provide it.
    Unavailable,
    /// It failed with a diagnostic.
    Failed(String),
}

/// Misuse or exhaustion of the suspension state machine.
#[derive(Debug, Clone, Copy, PartialEq, Eq, Hash, Structural)]
pub enum EffectStateError {
    /// A second request was made before the first resumed.
    AlreadySuspended,
    /// A response came when no request was waiting.
    NoSuspendedEffect,
    /// The suspension belongs to another editor.
    DifferentEditor,
    /// A newer request superseded the suspension.
    StaleSuspension,
    /// No further sequence number can be issued.
    SequenceExhausted,
}

/// What a host failure says.
pub open spec fn host_failure_message(failure: HostFailure) -> Seq<char> {
    match failure {
        HostFailure::Cancelled => "host operation was cancelled"@,
        HostFailure::Interrupted => "host operation was interrupted"@,
        HostFailure::Unavailable => "host operation is unavailable"@,
        HostFailure::Failed(diagnostic) => "host operation failed: "@ + diagnostic@,
    }
}

impl HostFailure {
    /// What the failure says, for a person to read.
    pub fn message(&self) -> (text: String)
        ensures
            text@ == host_failure_message(*self),
    {
        let mut out: Vec<char> = Vec::new();
        match self {
            HostFailure::Cancelled => push_str(&mut out, "host operation was cancelled"),
            HostFailure::Interrupted => push_str(&mut out, "host operation was interrupted"),
            HostFailure::Unavailable => push_str(&mut out, "host operation is unavailable"),
            HostFailure::Failed(diagnostic) => {
                push_str(&mut out, "host operation failed: ");
                push_str(&mut out, diagnostic.as_str());
            },
        }
        into_string(&out)
    }
}

/// What a misuse of the suspension protocol says.
pub open spec fn effect_state_message(error: EffectStateError) -> Seq<char> {
    match error {
        EffectStateError::AlreadySuspended => "the editor already has a suspended effect"@,
        EffectStateError::NoSuspendedEffect => "the editor has no suspended effect"@,
        EffectStateError::DifferentEditor => "the suspension belongs to another editor"@,
        EffectStateError::StaleSuspension => "the suspension is no longer current"@,
        EffectStateError::SequenceExhausted => "the effect sequence is exhausted"@,
    }
}

impl EffectStateError {
    /// What the error says, for a person to read.
    pub fn message(&self) -> (text: String)
        ensures
            text@ == effect_state_message(*self),
    {
        let mut out: Vec<char> = Vec::new();
        match self {
            EffectStateError::AlreadySuspended => push_str(&mut out, "the editor already has a suspended effect"),
            EffectStateError::NoSuspendedEffect => push_str(&mut out, "the editor has no suspended effect"),
            EffectStateError::DifferentEditor => push_str(&mut out, "the suspension belongs to another editor"),
            EffectStateError::StaleSuspension => push_str(&mut out, "the suspension is no longer current"),
            EffectStateError::SequenceExhausted => push_str(&mut out, "the effect sequence is exhausted"),
        }
        into_string(&out)
    }
}

/// Which prompt the host renders.
#[derive(Debug, Clone, Copy, PartialEq, Eq, Hash)]
pub enum PromptSide {
    /// The prompt before the line.
    Left,
    /// The prompt at the right edge.
    Right,
}

/// Ask the host for a prompt.
#[derive(Debug, Clone, Copy, PartialEq, Eq, Hash)]
pub struct PromptEffect {
    pub side: PromptSide,
}

impl Sealed for PromptEffect {
}

impl Effect for PromptEffect {
    type Response = EffectResult<Prompt>;
}

/// Ask the host for input.
#[derive(Debug, Clone, Copy, PartialEq, Eq, Hash)]
pub enum ReadEffect {
    /// Wait for fresh input.
    Input,
    /// Wait long enough to settle a key-sequence prefix.
    KeySequence,
}

impl Default for ReadEffect {
    fn default() -> (effect: Self)
        ensures
            effect == ReadEffect::Input,
    {
        ReadEffect::Input
    }
}

impl Sealed for ReadEffect {
}

impl Effect for ReadEffect {
    type Response = EffectResult<ReadOutcome>;
}

/// A successful host read.
#[derive(Debug, Clone, PartialEq, Eq, Hash)]
pub enum ReadOutcome {
    /// Bytes for the incremental decoder.
    Bytes(Vec<u8>),
    /// One unit already decoded.
    Unit(TextUnit),
    /// A terminal signal.
    Signal(Signal),
    /// No continuation arrived before a prefix deadline.
    TimedOut,
    /// The input ended.
    EndOfInput,
}

/// Ask the host history to move.
#[derive(Debug, Clone, Copy, PartialEq, Eq, Hash)]
pub struct HistoryNavigateEffect {
    pub direction: Direction,
}

impl Sealed for HistoryNavigateEffect {
}

impl Effect for HistoryNavigateEffect {
    type Response = EffectResult<HistoryResponse>;
}

/// What history navigation found.
#[derive(Debug, Clone, PartialEq, Eq, Hash)]
pub enum HistoryResponse {
    /// Replace the line with this entry.
    Entry(Text),
    /// Past the newest entry: back to the live line.
    Live,
    /// No entry in that direction.
    Boundary,
}

/// Ask the host history to keep an accepted line.
#[derive(Debug, Clone, PartialEq, Eq, Hash)]
pub struct HistoryRecordEffect {
    pub line: Text,
}

impl Sealed for HistoryRecordEffect {
}

impl Effect for HistoryRecordEffect {
    type Response = EffectResult<()>;
}

/// Ask the host to expand a command alias.
#[derive(Debug, Clone, PartialEq, Eq, Hash)]
pub struct AliasEffect {
    pub name: CommandName,
}

impl Sealed for AliasEffect {
}

impl Effect for AliasEffect {
    type Response = EffectResult<Option<Text>>;
}

/// Ask the host for the terminal size.
#[derive(Debug, Clone, Copy, PartialEq, Eq, Hash)]
pub struct ResizeEffect;

impl Sealed for ResizeEffect {
}

impl Effect for ResizeEffect {
    type Response = EffectResult<ScreenSize>;
}

/// Ask the host to handle a signal.
#[derive(Debug, Clone, Copy, PartialEq, Eq, Hash)]
pub struct SignalEffect {
    pub signal: Signal,
}

impl Sealed for SignalEffect {
}

impl Effect for SignalEffect {
    type Response = EffectResult<()>;
}

/// Ask the host for completion candidates.
#[derive(Debug)]
pub struct CompletionEffect {
    pub query: CompletionQuery,
}

impl Sealed for CompletionEffect {
}

impl Effect for CompletionEffect {
    type Response = EffectResult<CompletionCandidates>;
}

/// Ask the host to run a registered command.
#[derive(Debug, Clone, PartialEq, Eq, Hash)]
pub struct UserCommandEffect {
    pub name: CommandName,
    pub arguments: Vec<Text>,
}

impl Sealed for UserCommandEffect {
}

impl Effect for UserCommandEffect {
    type Response = EffectResult<Outcome>;
}

/// An owned host request that keeps no borrow of the editor.
pub struct Suspension<E: Effect> {
    owner: Arc<()>,
    sequence: u64,
    request: E,
}

impl<E: Effect> Suspension<E> {
    /// The sequence number the suspension was issued under.
    pub closed spec fn issued(&self) -> u64 {
        self.sequence
    }

    pub closed spec fn request_view(&self) -> E {
        self.request
    }

    pub(crate) fn new(owner: Arc<()>, sequence: u64, request: E) -> (suspension: Self)
        ensures
            suspension.issued() == sequence,
            suspension.request_view() == request,
    {
        Suspension { owner, sequence, request }
    }

    pub(crate) fn sequence(&self) -> (sequence: u64)
        ensures
            sequence == self.issued(),
    {
        self.sequence
    }

    pub(crate) fn owner(&self) -> &Arc<()> {
        &self.owner
    }

    /// The request, while the editor stays free to borrow.
    pub fn request(&self) -> (request: &E)
        ensures
            *request == self.request_view(),
    {
        &self.request
    }
}

/// `std::sync::Arc::clone`: another handle on the same allocation. Nothing
/// is stated of which allocation that is.
#[verifier::external_body]
pub(crate) fn share_owner(owner: &Arc<()>) -> Arc<()> {
    Arc::clone(owner)
}

/// `std::sync::Arc::ptr_eq`: whether two handles name one allocation. The
/// answer depends on addresses, so nothing is stated of it.
#[verifier::external_body]
pub(crate) fn same_owner(first: &Arc<()>, second: &Arc<()>) -> bool {
    Arc::ptr_eq(first, second)
}

/// The suspension state of an editor: the last sequence number issued and
/// the one awaiting a response.
pub(crate) struct Runtime {
    pub(crate) owner: Arc<()>,
    pub(crate) next_sequence: u64,
    pub(crate) pending_sequence: Option<u64>,
}

/// The state of a runtime by value: last issued number and pending number.
pub open spec fn settled(issued: u64, pending: Option<u64>, same_owner: bool, sequence: u64) -> (Option<u64>, Result<(), EffectStateError>) {
    if !same_owner {
        (pending, Err(EffectStateError::DifferentEditor))
    } else {
        match pending {
            None => (pending, Err(EffectStateError::NoSuspendedEffect)),
            Some(p) => if p != sequence {
                (pending, Err(EffectStateError::StaleSuspension))
            } else {
                (None, Ok(()))
            },
        }
    }
}

impl Runtime {
    /// A runtime with nothing issued.
    pub(crate) fn new() -> (runtime: Self)
        ensures
            runtime.next_sequence == 0,
            runtime.pending_sequence is None,
    {
        Runtime { owner: Arc::new(()), next_sequence: 0, pending_sequence: None }
    }

    /// Issue the next sequence number for a request, unless one is pending
    /// or the numbers are used up.
    pub(crate) fn issue(&mut self) -> (result: Result<u64, EffectStateError>)
        ensures
            old(self).pending_sequence is Some ==> result == Err::<u64, EffectStateError>(
                EffectStateError::AlreadySuspended,
            ) && final(self).next_sequence == old(self).next_sequence && final(self).pending_sequence == old(
                self,
            ).pending_sequence,
            old(self).pending_sequence is None && old(self).next_sequence == u64::MAX ==> result == Err::<
                u64,
                EffectStateError,
            >(EffectStateError::SequenceExhausted) && final(self).next_sequence == old(self).next_sequence
                && final(self).pending_sequence is None,
            old(self).pending_sequence is None && old(self).next_sequence < u64::MAX ==> result == Ok::<
                u64,
                EffectStateError,
            >((old(self).next_sequence + 1) as u64) && final(self).next_sequence == old(self).next_sequence + 1
                && final(self).pending_sequence == Some((old(self).next_sequence + 1) as u64),
    {
        if self.pending_sequence.is_some() {
            return Err(EffectStateError::AlreadySuspended);
        }
        if self.next_sequence == u64::MAX {
            return Err(EffectStateError::SequenceExhausted);
        }
        let sequence = self.next_sequence + 1;
        self.next_sequence = sequence;
        self.pending_sequence = Some(sequence);
        Ok(sequence)
    }

    /// Accept a response for `sequence` from a suspension whose owner check
    /// gave `same_owner`.
    pub(crate) fn settle(&mut self, same_owner: bool, sequence: u64) -> (result: Result<(), EffectStateError>)
        ensures
            (final(self).pending_sequence, result) == settled(
                old(self).next_sequence,
                old(self).pending_sequence,
                same_owner,
                sequence,
            ),
            final(self).next_sequence == old(self).next_sequence,
    {
        if !same_owner {
            return Err(EffectStateError::DifferentEditor);
        }
        match self.pending_sequence {
            None => Err(EffectStateError::NoSuspendedEffect),
            Some(pending) => if pending != sequence {
                Err(EffectStateError::StaleSuspension)
            } else {
                self.pending_sequence = None;
                Ok(())
            },
        }
    }
}

/// A response is accepted at most once: settling the same sequence again
/// fails, whoever asks.
pub proof fn law_settles_once(issued: u64, pending: Option<u64>, same_owner: bool, sequence: u64, again: bool)
    requires
        settled(issued, pending, same_owner, sequence).1 is Ok,
    ensures
        settled(issued, settled(issued, pending, same_owner, sequence).0, again, sequence).1 is Err,
{
}

/// A rejected response leaves the pending request as it was.
pub proof fn law_rejection_keeps_pending(issued: u64, pending: Option<u64>, same_owner: bool, sequence: u64)
    ensures
        settled(issued, pending, same_owner, sequence).1 is Err ==> settled(issued, pending, same_owner, sequence).0
            == pending,
{
}

} // verus!
