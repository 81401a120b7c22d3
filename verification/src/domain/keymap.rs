//! Key sequences and the bindings they select.

use super::command::Action;
use super::command_effect::EffectCommand;
use super::sequence::CommandSequence;
use super::text::{seq_starts_with, units_start_with, Text};
use super::Error;
use vstd::prelude::*;

verus! {

/// A non-empty logical input sequence used as one keymap key.
#[derive(Debug, PartialEq, Eq, Hash)]
pub struct KeySequence(Text);

impl View for KeySequence {
    type V = Seq<super::text::TextUnit>;

    closed spec fn view(&self) -> Seq<super::text::TextUnit> {
        self.0@
    }
}

impl KeySequence {
    /// Every key sequence holds at least one unit.
    #[verifier::type_invariant]
    pub closed spec fn wf(self) -> bool {
        self.0@.len() > 0
    }

    pub proof fn lemma_wf_nonempty(&self)
        requires
            self.wf(),
        ensures
            self@.len() > 0,
    {
    }

    /// Validate and own a logical input sequence.
    pub fn new(sequence: Text) -> (result: Result<Self, Error>)
        ensures
            sequence@.len() == 0 ==> result == Err::<Self, Error>(Error::EmptyKeySequence),
            sequence@.len() != 0 ==> (result matches Ok(key) && key@ == sequence@ && key.wf()),
    {
        if sequence.is_empty() {
            Err(Error::EmptyKeySequence)
        } else {
            Ok(KeySequence(sequence))
        }
    }

    /// Own a sequence already known to be non-empty.
    pub(crate) fn from_nonempty(sequence: Text) -> (key: Self)
        requires
            sequence@.len() > 0,
        ensures
            key@ == sequence@,
            key.wf(),
    {
        KeySequence(sequence)
    }

    /// Borrow the complete logical sequence.
    pub fn as_text(&self) -> (text: &Text)
        ensures
            text@ == self@,
    {
        &self.0
    }

    /// Whether `prefix` begins this sequence.
    pub fn starts_with(&self, prefix: &Self) -> (result: bool)
        ensures
            result == seq_starts_with(self@, prefix@),
    {
        units_start_with(self.0.as_units(), prefix.0.as_units())
    }

    /// Exact equality of two sequences.
    pub fn same_as(&self, other: &Self) -> (equal: bool)
        ensures
            equal == (self@ == other@),
    {
        self.0.same_as(&other.0)
    }

    /// A copy of this sequence.
    pub fn duplicate(&self) -> (copy: Self)
        ensures
            copy@ == self@,
            copy.wf(),
    {
        proof {
            use_type_invariant(self);
        }
        KeySequence(self.0.duplicate())
    }
}

/// What a complete key sequence causes the driver to do.
#[derive(Debug, Clone, PartialEq, Eq, Hash)]
pub enum Binding {
    /// Run one typed semantic action.
    Action(Action),
    /// Begin a closed driver-owned interaction protocol.
    Sequence(CommandSequence),
    /// Begin a closed command that yields an owned host effect.
    Effect(EffectCommand),
    /// Reprocess owned logical input through the active keymap.
    Macro(Text),
}

/// Result of matching a typed sequence against the active keymap.
#[derive(Debug, Clone, Copy, PartialEq, Eq)]
pub enum KeyLookup<'a> {
    /// A complete binding with no longer sequence sharing this prefix.
    Exact(&'a Binding),
    /// A complete binding that is also the prefix of a longer binding.
    Ambiguous(&'a Binding),
    /// No complete binding yet, but a longer sequence may match.
    Prefix,
    /// Neither a binding nor a prefix.
    Unbound,
}

impl Clone for KeySequence {
    fn clone(&self) -> (copy: Self)
        ensures
            copy@ == self@,
    {
        self.duplicate()
    }
}

} // verus!
