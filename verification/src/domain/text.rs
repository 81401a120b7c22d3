//! Logical text: owned sequences of input units and checked boundaries.

use super::Error;
use vstd::prelude::*;

verus! {

/// Whether `value` is a Unicode scalar value, i.e. representable as `char`.
pub open spec fn is_scalar_value(value: u32) -> bool {
    value < 0xD800 || (0xE000 <= value && value <= 0x10FFFF)
}

/// `char::from_u32`: the scalar with this code point, when there is one.
#[verifier::external_body]
pub(crate) fn char_from_u32(value: u32) -> (result: Option<char>)
    ensures
        result is Some <==> is_scalar_value(value),
        result matches Some(c) ==> c as u32 == value && c == value as char,
{
    char::from_u32(value)
}

/// A compatibility-wide value that is deliberately not a Unicode scalar.
#[derive(Debug, Clone, Copy, PartialEq, Eq, Hash, PartialOrd, Ord, Structural)]
pub struct NonScalarWide(u32);

impl View for NonScalarWide {
    type V = u32;

    closed spec fn view(&self) -> u32 {
        self.0
    }
}

impl NonScalarWide {
    /// Every value of this type is a non-scalar code.
    pub closed spec fn wf(self) -> bool {
        !is_scalar_value(self.0)
    }

    pub proof fn lemma_wf(self)
        requires
            self.wf(),
        ensures
            !is_scalar_value(self@),
    {
    }

    /// Construct a non-scalar wide value without duplicating a `char`.
    pub fn new(value: u32) -> (result: Result<Self, Error>)
        ensures
            is_scalar_value(value) ==> result == Err::<Self, Error>(Error::ScalarWideValue(value)),
            !is_scalar_value(value) ==> (result matches Ok(w) && w@ == value && w.wf()),
    {
        match char_from_u32(value) {
            Some(_) => Err(Error::ScalarWideValue(value)),
            None => Ok(NonScalarWide(value)),
        }
    }

    /// Recover the compatibility value for boundary conversion.
    pub fn get(self) -> (value: u32)
        ensures
            value == self@,
    {
        self.0
    }
}

/// One logical input unit, preserving every representation the boundary can
/// receive without conflating it with display bookkeeping.
#[derive(Debug, Clone, Copy, PartialEq, Eq, Hash, PartialOrd, Ord, Structural)]
pub enum TextUnit {
    /// A decoded Unicode scalar value.
    Scalar(char),
    /// One byte that could not be decoded under the boundary's active locale.
    RawByte(u8),
    /// A wide compatibility value that Rust's `char` cannot represent.
    CompatibilityWide(NonScalarWide),
}

/// The unit a wide boundary value becomes.
pub open spec fn unit_of_wide(value: u32, unit: TextUnit) -> bool {
    if is_scalar_value(value) {
        unit matches TextUnit::Scalar(c) && c as u32 == value
    } else {
        unit matches TextUnit::CompatibilityWide(w) && w@ == value && w.wf()
    }
}

impl TextUnit {
    /// The unit holding one decoded scalar.
    pub fn scalar(character: char) -> (unit: Self)
        ensures
            unit == TextUnit::Scalar(character),
    {
        TextUnit::Scalar(character)
    }

    /// Preserve a wide boundary value, using `Scalar` exactly when it is a
    /// Unicode scalar value.
    pub fn from_wide(value: u32) -> (unit: Self)
        ensures
            unit_of_wide(value, unit),
    {
        match char_from_u32(value) {
            Some(character) => TextUnit::Scalar(character),
            None => TextUnit::CompatibilityWide(NonScalarWide(value)),
        }
    }
}

/// The characters of a string slice, in order.
#[verifier::external_body]
pub(crate) fn str_chars(s: &str) -> (characters: Vec<char>)
    ensures
        characters@ == s@,
{
    s.chars().collect()
}

/// Whether `units` holds exactly the scalars of `characters`, in order.
pub open spec fn is_scalar_text(units: Seq<TextUnit>, characters: Seq<char>) -> bool {
    &&& units.len() == characters.len()
    &&& forall|i: int| 0 <= i < characters.len() ==> units[i] == TextUnit::Scalar(#[trigger] characters[i])
}

/// An owned logical input string.
#[derive(Debug, Clone, PartialEq, Eq, Hash, Default)]
pub struct Text(Vec<TextUnit>);

impl View for Text {
    type V = Seq<TextUnit>;

    closed spec fn view(&self) -> Seq<TextUnit> {
        self.0@
    }
}

/// Exact equality of two unit slices.
pub fn units_equal(a: &[TextUnit], b: &[TextUnit]) -> (equal: bool)
    ensures
        equal == (a@ == b@),
{
    if a.len() != b.len() {
        return false;
    }
    let mut i: usize = 0;
    while i < a.len()
        invariant
            a@.len() == b@.len(),
            i <= a@.len(),
            forall|j: int| 0 <= j < i ==> a@[j] == b@[j],
        decreases a@.len() - i,
    {
        if a[i] != b[i] {
            return false;
        }
        i = i + 1;
    }
    assert(a@ =~= b@);
    true
}

/// Whether `prefix` is a prefix of `units`.
pub open spec fn seq_starts_with(units: Seq<TextUnit>, prefix: Seq<TextUnit>) -> bool {
    prefix.len() <= units.len() && units.subrange(0, prefix.len() as int) == prefix
}

/// Whether `prefix` begins `units`.
pub fn units_start_with(units: &[TextUnit], prefix: &[TextUnit]) -> (result: bool)
    ensures
        result == seq_starts_with(units@, prefix@),
{
    if prefix.len() > units.len() {
        return false;
    }
    let mut i: usize = 0;
    while i < prefix.len()
        invariant
            prefix@.len() <= units@.len(),
            i <= prefix@.len(),
            forall|j: int| 0 <= j < i ==> units@[j] == prefix@[j],
        decreases prefix@.len() - i,
    {
        if units[i] != prefix[i] {
            return false;
        }
        i = i + 1;
    }
    assert(units@.subrange(0, prefix@.len() as int) =~= prefix@);
    true
}

impl Text {
    /// An empty text.
    pub fn new() -> (text: Self)
        ensures
            text@ == Seq::<TextUnit>::empty(),
    {
        Text(Vec::new())
    }

    /// The scalars of a string slice as logical text.
    pub fn from_str(value: &str) -> (text: Self)
        ensures
            is_scalar_text(text@, value@),
    {
        let characters = str_chars(value);
        let slice = characters.as_slice();
        let text = Text::from_chars(slice);
        assert(slice@ == value@);
        text
    }

    /// Own a sequence of logical units.
    pub fn from_units(units: Vec<TextUnit>) -> (text: Self)
        ensures
            text@ == units@,
    {
        Text(units)
    }

    /// Copy a slice of logical units.
    pub fn from_slice(units: &[TextUnit]) -> (text: Self)
        ensures
            text@ == units@,
    {
        let mut v: Vec<TextUnit> = Vec::new();
        let mut i: usize = 0;
        while i < units.len()
            invariant
                i <= units@.len(),
                v@ == units@.subrange(0, i as int),
            decreases units@.len() - i,
        {
            v.push(units[i]);
            i = i + 1;
        }
        assert(v@ =~= units@);
        Text(v)
    }

    /// Logical text made of the scalars of `characters`.
    pub fn from_chars(characters: &[char]) -> (text: Self)
        ensures
            is_scalar_text(text@, characters@),
    {
        let mut v: Vec<TextUnit> = Vec::new();
        let mut i: usize = 0;
        let n = characters.len();
        while i < n
            invariant
                n == characters@.len(),
                i <= characters@.len(),
                v@.len() == i,
                forall|j: int| 0 <= j < i ==> v@[j] == TextUnit::Scalar(#[trigger] characters@[j]),
            decreases characters@.len() - i,
        {
            let unit = TextUnit::scalar(characters[i]);
            v.push(unit);
            i = i + 1;
        }
        Text(v)
    }

    /// Number of logical units, not encoded bytes or display cells.
    pub fn len(&self) -> (len: usize)
        ensures
            len == self@.len(),
    {
        self.0.len()
    }

    /// Whether no logical units are present.
    pub fn is_empty(&self) -> (empty: bool)
        ensures
            empty == (self@.len() == 0),
    {
        self.0.len() == 0
    }

    /// Borrow the logical units.
    pub fn as_units(&self) -> (units: &[TextUnit])
        ensures
            units@ == self@,
    {
        self.0.as_slice()
    }

    /// Exact equality of the logical units.
    pub fn same_as(&self, other: &Text) -> (equal: bool)
        ensures
            equal == (self@ == other@),
    {
        units_equal(self.0.as_slice(), other.0.as_slice())
    }

    /// A copy of this text.
    pub fn duplicate(&self) -> (copy: Text)
        ensures
            copy@ == self@,
    {
        Text::from_slice(self.0.as_slice())
    }

    /// Append one logical unit.
    pub fn push(&mut self, unit: TextUnit)
        ensures
            final(self)@ == old(self)@.push(unit),
    {
        self.0.push(unit);
    }

    /// Append every unit of a slice.
    pub fn extend_from(&mut self, units: &[TextUnit])
        ensures
            final(self)@ == old(self)@ + units@,
    {
        let ghost start = self@;
        let mut i: usize = 0;
        while i < units.len()
            invariant
                i <= units@.len(),
                self@ == start + units@.subrange(0, i as int),
            decreases units@.len() - i,
        {
            self.0.push(units[i]);
            i = i + 1;
            assert(self@ =~= start + units@.subrange(0, i as int));
        }
        assert(units@.subrange(0, units@.len() as int) =~= units@);
    }

    /// Remove every logical unit.
    pub fn clear(&mut self)
        ensures
            final(self)@ == Seq::<TextUnit>::empty(),
    {
        self.0.clear();
    }

    /// Validate a cursor boundary in this text. The end boundary is valid.
    pub fn index(&self, index: usize) -> (result: Result<TextIndex, Error>)
        ensures
            index <= self@.len() ==> (result matches Ok(i) && i@ == index),
            index > self@.len() ==> result == Err::<TextIndex, Error>(
                Error::TextIndexOutOfBounds { index, len: self@.len() as usize },
            ),
    {
        if index <= self.len() {
            Ok(TextIndex(index))
        } else {
            Err(Error::TextIndexOutOfBounds { index, len: self.len() })
        }
    }

    /// A boundary already known to lie within this text.
    pub fn index_within(&self, index: usize) -> (boundary: TextIndex)
        requires
            index <= self@.len(),
        ensures
            boundary@ == index,
    {
        TextIndex(index)
    }

    /// A span already known to lie within this text.
    pub fn span_within(&self, start: usize, end: usize) -> (span: TextSpan)
        requires
            start <= end <= self@.len(),
        ensures
            span@ == (start as nat, end as nat),
    {
        TextSpan { start: TextIndex(start), end: TextIndex(end) }
    }

    /// Validate an ordered, half-open span in this text.
    pub fn span(&self, start: usize, end: usize) -> (result: Result<TextSpan, Error>)
        ensures
            start <= end && end <= self@.len() ==> (result matches Ok(span) && span@ == (
                start as nat,
                end as nat,
            )),
            !(start <= end && end <= self@.len()) ==> result == Err::<TextSpan, Error>(
                Error::InvalidTextSpan { start, end, len: self@.len() as usize },
            ),
    {
        if start <= end && end <= self.len() {
            Ok(TextSpan { start: TextIndex(start), end: TextIndex(end) })
        } else {
            Err(Error::InvalidTextSpan { start, end, len: self.len() })
        }
    }

    /// Whether `span` lies inside this text.
    pub open spec fn contains_span(self, span: TextSpan) -> bool {
        span@.1 <= self@.len()
    }

    /// Borrow a span already known to lie inside this text.
    pub fn slice_within(&self, span: TextSpan) -> (units: &[TextUnit])
        requires
            self.contains_span(span),
        ensures
            units@ == self@.subrange(span@.0 as int, span@.1 as int),
    {
        proof {
            use_type_invariant(&span);
        }
        vstd::slice::slice_subrange(self.0.as_slice(), span.start.0, span.end.0)
    }

    /// Borrow a span, revalidating it for this particular value.
    pub fn slice(&self, span: TextSpan) -> (result: Result<&[TextUnit], Error>)
        ensures
            self.contains_span(span) ==> (result matches Ok(units) && units@ == self@.subrange(
                span@.0 as int,
                span@.1 as int,
            )),
            !self.contains_span(span) ==> result == Err::<&[TextUnit], Error>(
                Error::InvalidTextSpan {
                    start: span@.0 as usize,
                    end: span@.1 as usize,
                    len: self@.len() as usize,
                },
            ),
    {
        proof {
            use_type_invariant(&span);
        }
        let checked = self.span(span.start.0, span.end.0)?;
        Ok(vstd::slice::slice_subrange(self.0.as_slice(), checked.start.0, checked.end.0))
    }

    /// Replace `[start, end)` with `replacement`; the removed units are returned.
    fn splice(&mut self, start: usize, end: usize, replacement: &[TextUnit]) -> (removed: Vec<
        TextUnit,
    >)
        requires
            start <= end <= old(self)@.len(),
        ensures
            final(self)@ == old(self)@.subrange(0, start as int) + replacement@ + old(
                self,
            )@.subrange(end as int, old(self)@.len() as int),
            removed@ == old(self)@.subrange(start as int, end as int),
    {
        let ghost before = self@;
        let mut result: Vec<TextUnit> = Vec::new();
        let mut removed: Vec<TextUnit> = Vec::new();
        let mut i: usize = 0;
        while i < start
            invariant
                i <= start <= end <= before.len(),
                self@ == before,
                result@ == before.subrange(0, i as int),
            decreases start - i,
        {
            result.push(self.0[i]);
            i = i + 1;
        }
        let mut j: usize = 0;
        while j < replacement.len()
            invariant
                j <= replacement@.len(),
                result@ == before.subrange(0, start as int) + replacement@.subrange(0, j as int),
            decreases replacement@.len() - j,
        {
            result.push(replacement[j]);
            j = j + 1;
            assert(result@ =~= before.subrange(0, start as int) + replacement@.subrange(
                0,
                j as int,
            ));
        }
        assert(replacement@.subrange(0, replacement@.len() as int) =~= replacement@);
        let mut k: usize = start;
        while k < end
            invariant
                start <= k <= end <= before.len(),
                self@ == before,
                removed@ == before.subrange(start as int, k as int),
            decreases end - k,
        {
            removed.push(self.0[k]);
            k = k + 1;
        }
        let mut m: usize = end;
        while m < self.0.len()
            invariant
                end <= m <= before.len(),
                self@ == before,
                result@ == before.subrange(0, start as int) + replacement@ + before.subrange(
                    end as int,
                    m as int,
                ),
            decreases before.len() - m,
        {
            result.push(self.0[m]);
            m = m + 1;
            assert(result@ =~= before.subrange(0, start as int) + replacement@ + before.subrange(
                end as int,
                m as int,
            ));
        }
        self.0 = result;
        removed
    }

    /// Insert owned logical text at a checked boundary.
    pub fn insert(&mut self, at: TextIndex, inserted: &Text) -> (result: Result<(), Error>)
        ensures
            at@ <= old(self)@.len() ==> result is Ok && final(self)@ == old(self)@.subrange(
                0,
                at@ as int,
            ) + inserted@ + old(self)@.subrange(at@ as int, old(self)@.len() as int),
            at@ > old(self)@.len() ==> result == Err::<(), Error>(
                Error::TextIndexOutOfBounds { index: at@ as usize, len: old(self)@.len() as usize },
            ) && final(self)@ == old(self)@,
    {
        self.index(at.0)?;
        let _ = self.splice(at.0, at.0, inserted.0.as_slice());
        Ok(())
    }

    /// Remove a checked span and return what it contained.
    pub fn remove(&mut self, span: TextSpan) -> (result: Result<Text, Error>)
        ensures
            old(self).contains_span(span) ==> (result matches Ok(removed) && removed@ == old(
                self,
            )@.subrange(span@.0 as int, span@.1 as int) && final(self)@ == old(
                self,
            )@.subrange(0, span@.0 as int) + old(self)@.subrange(
                span@.1 as int,
                old(self)@.len() as int,
            )),
            !old(self).contains_span(span) ==> result == Err::<Text, Error>(
                Error::InvalidTextSpan {
                    start: span@.0 as usize,
                    end: span@.1 as usize,
                    len: old(self)@.len() as usize,
                },
            ) && final(self)@ == old(self)@,
    {
        proof {
            use_type_invariant(&span);
        }
        self.span(span.start.0, span.end.0)?;
        let nothing: Vec<TextUnit> = Vec::new();
        let removed = self.splice(span.start.0, span.end.0, nothing.as_slice());
        proof {
            assert(nothing@ + old(self)@.subrange(span@.1 as int, old(self)@.len() as int)
                =~= old(self)@.subrange(span@.1 as int, old(self)@.len() as int));
        }
        Ok(Text(removed))
    }

    /// Replace a checked span with owned logical text.
    pub fn replace(&mut self, span: TextSpan, replacement: &Text) -> (result: Result<(), Error>)
        ensures
            old(self).contains_span(span) ==> result is Ok && final(self)@ == old(self)@.subrange(
                0,
                span@.0 as int,
            ) + replacement@ + old(self)@.subrange(span@.1 as int, old(self)@.len() as int),
            !old(self).contains_span(span) ==> result == Err::<(), Error>(
                Error::InvalidTextSpan {
                    start: span@.0 as usize,
                    end: span@.1 as usize,
                    len: old(self)@.len() as usize,
                },
            ) && final(self)@ == old(self)@,
    {
        proof {
            use_type_invariant(&span);
        }
        self.span(span.start.0, span.end.0)?;
        let _ = self.splice(span.start.0, span.end.0, replacement.0.as_slice());
        Ok(())
    }
}

impl From<&str> for Text {
    fn from(value: &str) -> Text {
        Text::from_str(value)
    }
}

impl vstd::std_specs::convert::FromSpecImpl<&str> for Text {
    open spec fn obeys_from_spec() -> bool {
        false
    }

    open spec fn from_spec(v: &str) -> Text {
        arbitrary()
    }
}

impl From<Vec<TextUnit>> for Text {
    fn from(units: Vec<TextUnit>) -> Text {
        Text::from_units(units)
    }
}

impl vstd::std_specs::convert::FromSpecImpl<Vec<TextUnit>> for Text {
    open spec fn obeys_from_spec() -> bool {
        false
    }

    open spec fn from_spec(v: Vec<TextUnit>) -> Text {
        arbitrary()
    }
}

/// A validated logical-text boundary.
#[derive(Debug, Clone, Copy, PartialEq, Eq, Hash, PartialOrd, Ord, Structural)]
pub struct TextIndex(usize);

impl View for TextIndex {
    type V = nat;

    closed spec fn view(&self) -> nat {
        self.0 as nat
    }
}

impl TextIndex {
    /// The first boundary, valid for every `Text`.
    pub fn zero() -> (index: TextIndex)
        ensures
            index@ == 0,
    {
        TextIndex(0)
    }

    pub proof fn lemma_view_fits(self)
        ensures
            self@ <= usize::MAX,
    {
    }

    pub proof fn lemma_view_injective(self, other: TextIndex)
        ensures
            (self@ == other@) == (self == other),
    {
    }

    /// The zero-based logical-unit offset.
    pub fn get(self) -> (offset: usize)
        ensures
            offset == self@,
    {
        self.0
    }
}

/// A validated, ordered, half-open range of logical text.
#[derive(Debug, Clone, Copy, PartialEq, Eq, Hash)]
pub struct TextSpan {
    start: TextIndex,
    end: TextIndex,
}

impl View for TextSpan {
    type V = (nat, nat);

    closed spec fn view(&self) -> (nat, nat) {
        (self.start@, self.end@)
    }
}

impl TextSpan {
    /// A span never ends before it starts.
    #[verifier::type_invariant]
    pub closed spec fn ordered(self) -> bool {
        self.start.0 <= self.end.0
    }

    /// Every span starts no later than it ends.
    pub proof fn lemma_ordered(self)
        requires
            self.ordered(),
        ensures
            self@.0 <= self@.1,
    {
    }

    pub fn start(self) -> (start: TextIndex)
        ensures
            start@ == self@.0,
    {
        self.start
    }

    pub fn end(self) -> (end: TextIndex)
        ensures
            end@ == self@.1,
    {
        self.end
    }

    pub fn len(self) -> (len: usize)
        ensures
            len == self@.1 - self@.0,
    {
        proof {
            use_type_invariant(self);
        }
        self.end.0 - self.start.0
    }

    pub fn is_empty(self) -> (empty: bool)
        ensures
            empty == (self@.0 == self@.1),
    {
        self.start.0 == self.end.0
    }
}

} // verus!
