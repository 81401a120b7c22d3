//! Prompts made of logical text and zero-width terminal literals.

use super::text::Text;
use vstd::prelude::*;

verus! {

/// An owned zero-width terminal byte sequence embedded in a prompt.
///
/// A terminal literal is deliberately not a screen cell: emitting it changes
/// terminal state without occupying or replacing a display column.
#[derive(Debug, Clone, PartialEq, Eq, Hash)]
pub struct TerminalLiteral(Vec<u8>);

impl View for TerminalLiteral {
    type V = Seq<u8>;

    closed spec fn view(&self) -> Seq<u8> {
        self.0@
    }
}

impl TerminalLiteral {
    /// Own a copy of the bytes to emit.
    pub fn from_bytes(bytes: &[u8]) -> (literal: Self)
        ensures
            literal@ == bytes@,
    {
        let mut v: Vec<u8> = Vec::new();
        let mut i: usize = 0;
        while i < bytes.len()
            invariant
                i <= bytes@.len(),
                v@ == bytes@.subrange(0, i as int),
            decreases bytes@.len() - i,
        {
            v.push(bytes[i]);
            i = i + 1;
        }
        assert(v@ =~= bytes@);
        TerminalLiteral(v)
    }

    /// Own the given bytes.
    pub fn from_vec(bytes: Vec<u8>) -> (literal: Self)
        ensures
            literal@ == bytes@,
    {
        TerminalLiteral(bytes)
    }

    /// Borrow the exact bytes to emit.
    pub fn as_bytes(&self) -> (bytes: &[u8])
        ensures
            bytes@ == self@,
    {
        self.0.as_slice()
    }
}

impl From<&[u8]> for TerminalLiteral {
    fn from(bytes: &[u8]) -> TerminalLiteral {
        TerminalLiteral::from_bytes(bytes)
    }
}

impl vstd::std_specs::convert::FromSpecImpl<&[u8]> for TerminalLiteral {
    open spec fn obeys_from_spec() -> bool {
        false
    }

    open spec fn from_spec(v: &[u8]) -> TerminalLiteral {
        arbitrary()
    }
}

impl From<Vec<u8>> for TerminalLiteral {
    fn from(bytes: Vec<u8>) -> TerminalLiteral {
        TerminalLiteral::from_vec(bytes)
    }
}

impl vstd::std_specs::convert::FromSpecImpl<Vec<u8>> for TerminalLiteral {
    open spec fn obeys_from_spec() -> bool {
        false
    }

    open spec fn from_spec(v: Vec<u8>) -> TerminalLiteral {
        arbitrary()
    }
}

/// One typed component of a native prompt.
#[derive(Debug, Clone, PartialEq, Eq, Hash)]
pub enum PromptPart {
    /// Logical text that participates in layout and occupies columns.
    Text(Text),
    /// Terminal bytes that occupy no columns.
    Literal(TerminalLiteral),
}

/// An owned prompt made from logical text and explicit zero-width literals.
#[derive(Debug, Clone, PartialEq, Eq, Hash, Default)]
pub struct Prompt(Vec<PromptPart>);

impl View for Prompt {
    type V = Seq<PromptPart>;

    closed spec fn view(&self) -> Seq<PromptPart> {
        self.0@
    }
}

impl Prompt {
    /// A prompt with no parts.
    pub fn new() -> (prompt: Self)
        ensures
            prompt@ == Seq::<PromptPart>::empty(),
    {
        Prompt(Vec::new())
    }

    /// A prompt holding one text, or no part when the text is empty.
    pub fn from_text(text: Text) -> (prompt: Self)
        ensures
            text@.len() == 0 ==> prompt@ == Seq::<PromptPart>::empty(),
            text@.len() != 0 ==> prompt@ == seq![PromptPart::Text(text)],
    {
        let mut prompt = Prompt::new();
        prompt.push_text(text);
        prompt
    }

    /// Append logical prompt text; empty text adds no part.
    pub fn push_text(&mut self, text: Text)
        ensures
            text@.len() == 0 ==> final(self)@ == old(self)@,
            text@.len() != 0 ==> final(self)@ == old(self)@.push(PromptPart::Text(text)),
    {
        if !text.is_empty() {
            self.0.push(PromptPart::Text(text));
        }
    }

    /// Append an explicit zero-width terminal sequence; an empty one adds no
    /// part.
    pub fn push_literal(&mut self, literal: TerminalLiteral)
        ensures
            literal@.len() == 0 ==> final(self)@ == old(self)@,
            literal@.len() != 0 ==> final(self)@ == old(self)@.push(PromptPart::Literal(literal)),
    {
        if literal.as_bytes().len() != 0 {
            self.0.push(PromptPart::Literal(literal));
        }
    }

    /// Borrow the prompt components in emission order.
    pub fn parts(&self) -> (parts: &[PromptPart])
        ensures
            parts@ == self@,
    {
        self.0.as_slice()
    }

    /// Whether this prompt has no visible text or terminal literals.
    pub fn is_empty(&self) -> (empty: bool)
        ensures
            empty == (self@.len() == 0),
    {
        self.0.len() == 0
    }
}

impl From<Text> for Prompt {
    fn from(text: Text) -> Prompt {
        Prompt::from_text(text)
    }
}

impl vstd::std_specs::convert::FromSpecImpl<Text> for Prompt {
    open spec fn obeys_from_spec() -> bool {
        false
    }

    open spec fn from_spec(v: Text) -> Prompt {
        arbitrary()
    }
}

impl From<&str> for Prompt {
    fn from(text: &str) -> Prompt {
        Prompt::from_text(Text::from_str(text))
    }
}

impl vstd::std_specs::convert::FromSpecImpl<&str> for Prompt {
    open spec fn obeys_from_spec() -> bool {
        false
    }

    open spec fn from_spec(v: &str) -> Prompt {
        arbitrary()
    }
}

} // verus!
