//! Unicode case transformations over logical text.

use crate::domain::{Text, TextTransform, TextUnit};
use crate::unicode::{
    char_is_alphabetic, char_is_lowercase, char_is_uppercase, char_lowercase, char_uppercase,
    is_alphabetic, is_lowercase, is_uppercase, to_lowercase, to_uppercase,
};
use vstd::prelude::*;

verus! {

/// The scalar units of a sequence of characters.
pub open spec fn scalars(characters: Seq<char>) -> Seq<TextUnit>
    decreases characters.len(),
{
    if characters.len() == 0 {
        Seq::empty()
    } else {
        scalars(characters.drop_last()).push(TextUnit::Scalar(characters.last()))
    }
}

/// An alphabetic scalar.
pub open spec fn unit_is_alphabetic(unit: TextUnit) -> bool {
    unit matches TextUnit::Scalar(c) && char_is_alphabetic(c)
}

/// Whether any unit is an alphabetic scalar.
pub open spec fn has_alphabetic(units: Seq<TextUnit>) -> bool {
    exists|i: int| 0 <= i < units.len() && #[trigger] unit_is_alphabetic(units[i])
}

/// What one unit becomes, given whether an alphabetic scalar precedes it.
pub open spec fn mapped_unit(unit: TextUnit, transform: TextTransform, seen_alphabetic: bool) -> Seq<TextUnit> {
    match unit {
        TextUnit::Scalar(c) => match transform {
            TextTransform::Lowercase => scalars(char_lowercase(c)),
            TextTransform::Uppercase => scalars(char_uppercase(c)),
            TextTransform::ToggleCase => if char_is_lowercase(c) {
                scalars(char_uppercase(c))
            } else {
                scalars(char_lowercase(c))
            },
            TextTransform::Capitalize => if !seen_alphabetic && char_is_alphabetic(c) {
                scalars(char_uppercase(c))
            } else if seen_alphabetic && char_is_uppercase(c) {
                scalars(char_lowercase(c))
            } else {
                seq![unit]
            },
        },
        _ => seq![unit],
    }
}

/// A transformation applied to a run of units: scalars are case-mapped,
/// raw bytes and compatibility values are kept as they are.
pub open spec fn transformed(units: Seq<TextUnit>, transform: TextTransform) -> Seq<TextUnit>
    decreases units.len(),
{
    if units.len() == 0 {
        Seq::empty()
    } else {
        transformed(units.drop_last(), transform) + mapped_unit(
            units.last(),
            transform,
            has_alphabetic(units.drop_last()),
        )
    }
}

/// Append the scalars of `characters` to `text`.
fn push_scalars(text: &mut Text, characters: &Vec<char>)
    ensures
        final(text)@ == old(text)@ + scalars(characters@),
{
    let ghost start = text@;
    let mut i: usize = 0;
    while i < characters.len()
        invariant
            i <= characters@.len(),
            text@ == start + scalars(characters@.subrange(0, i as int)),
        decreases characters@.len() - i,
    {
        let unit = TextUnit::scalar(characters[i]);
        text.push(unit);
        proof {
            let next = characters@.subrange(0, i + 1);
            assert(next.drop_last() =~= characters@.subrange(0, i as int));
            assert(next.last() == characters@[i as int]);
            assert(text@ =~= start + scalars(next));
        }
        i = i + 1;
    }
    assert(characters@.subrange(0, characters@.len() as int) =~= characters@);
}

/// Apply a case transformation to a run of units.
pub fn transform_units(units: &[TextUnit], transform: TextTransform) -> (result: Text)
    ensures
        result@ == transformed(units@, transform),
{
    let mut result = Text::new();
    let mut seen = false;
    let mut i: usize = 0;
    while i < units.len()
        invariant
            i <= units@.len(),
            result@ == transformed(units@.subrange(0, i as int), transform),
            seen == has_alphabetic(units@.subrange(0, i as int)),
        decreases units@.len() - i,
    {
        let unit = units[i];
        let ghost prefix = units@.subrange(0, i as int);
        let ghost next = units@.subrange(0, i + 1);
        proof {
            assert(next.drop_last() =~= prefix);
            assert(next.last() == unit);
        }
        match unit {
            TextUnit::Scalar(c) => {
                match transform {
                    TextTransform::Lowercase => {
                        let m = to_lowercase(c);
                        push_scalars(&mut result, &m);
                    },
                    TextTransform::Uppercase => {
                        let m = to_uppercase(c);
                        push_scalars(&mut result, &m);
                    },
                    TextTransform::ToggleCase => {
                        if is_lowercase(c) {
                            let m = to_uppercase(c);
                            push_scalars(&mut result, &m);
                        } else {
                            let m = to_lowercase(c);
                            push_scalars(&mut result, &m);
                        }
                    },
                    TextTransform::Capitalize => {
                        if !seen && is_alphabetic(c) {
                            let m = to_uppercase(c);
                            push_scalars(&mut result, &m);
                        } else if seen && is_uppercase(c) {
                            let m = to_lowercase(c);
                            push_scalars(&mut result, &m);
                        } else {
                            result.push(unit);
                            assert(seq![unit] =~= Seq::<TextUnit>::empty().push(unit));
                        }
                    },
                }
                if is_alphabetic(c) {
                    seen = true;
                }
            },
            _ => {
                result.push(unit);
            },
        }
        proof {
            assert(result@ =~= transformed(next, transform));
            if seen {
                if !has_alphabetic(prefix) {
                    assert(next[i as int] == unit);
                    assert(unit_is_alphabetic(next[i as int]));
                }
                assert(has_alphabetic(next)) by {
                    if has_alphabetic(prefix) {
                        let k = choose|k: int| 0 <= k < prefix.len() && #[trigger] unit_is_alphabetic(prefix[k]);
                        assert(next[k] == prefix[k]);
                    }
                }
            } else {
                assert(!has_alphabetic(next)) by {
                    if has_alphabetic(next) {
                        let k = choose|k: int| 0 <= k < next.len() && #[trigger] unit_is_alphabetic(next[k]);
                        if k < i {
                            assert(prefix[k] == next[k]);
                        }
                    }
                }
            }
        }
        i = i + 1;
    }
    assert(units@.subrange(0, units@.len() as int) =~= units@);
    result
}

} // verus!
