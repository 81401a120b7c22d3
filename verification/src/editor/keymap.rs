//! Typed keymaps: one table of bindings per keymap mode.

use crate::domain::text::seq_starts_with;
use crate::domain::{
    Action, Binding, CharacterSearch, CharacterSearchLanding, CommandSequence, Direction,
    EditTarget, KeyLookup, KeySequence, KeymapMode, Motion, Refresh, SearchRepetition, Text,
    TextTransform, TextUnit, ViInsertPlacement, ViOperator, ViSequence, ViSubstitution, WordKind,
    YankPlacement,
};
use vstd::prelude::*;

verus! {

/// One table of bindings, each key bound at most once.
pub struct Keymap {
    entries: Vec<(KeySequence, Binding)>,
    table: Ghost<Map<Seq<TextUnit>, Binding>>,
}

/// Whether a longer bound key begins with `key`.
pub open spec fn has_longer_key(map: Map<Seq<TextUnit>, Binding>, key: Seq<TextUnit>) -> bool {
    exists|k: Seq<TextUnit>| #[trigger] map.contains_key(k) && k != key && seq_starts_with(k, key)
}

/// What looking up `key` in `map` reports.
pub open spec fn lookup_result(map: Map<Seq<TextUnit>, Binding>, key: Seq<TextUnit>, result: KeyLookup) -> bool {
    let longer = has_longer_key(map, key);
    if map.contains_key(key) {
        if longer {
            result matches KeyLookup::Ambiguous(b) && *b == map[key]
        } else {
            result matches KeyLookup::Exact(b) && *b == map[key]
        }
    } else if longer {
        result is Prefix
    } else {
        result is Unbound
    }
}

impl View for Keymap {
    type V = Map<Seq<TextUnit>, Binding>;

    closed spec fn view(&self) -> Map<Seq<TextUnit>, Binding> {
        self.table@
    }
}

impl Keymap {
    /// The entries and the table agree, keys are distinct and non-empty.
    pub closed spec fn wf(&self) -> bool {
        &&& forall|i: int| 0 <= i < self.entries@.len() ==> {
            &&& #[trigger] self.table@.contains_key(self.entries@[i].0@)
            &&& self.table@[self.entries@[i].0@] == self.entries@[i].1
            &&& self.entries@[i].0.wf()
        }
        &&& forall|k: Seq<TextUnit>| #[trigger] self.table@.contains_key(k) ==> exists|i: int|
            0 <= i < self.entries@.len() && #[trigger] self.entries@[i].0@ == k
        &&& forall|i: int, j: int| 0 <= i < j < self.entries@.len() ==> self.entries@[i].0@ != self.entries@[j].0@
    }

    /// Every bound key is non-empty.
    pub proof fn lemma_keys_nonempty(&self, key: Seq<TextUnit>)
        requires
            self.wf(),
            self@.contains_key(key),
        ensures
            key.len() > 0,
    {
        let i = choose|i: int| 0 <= i < self.entries@.len() && #[trigger] self.entries@[i].0@ == key;
        assert(self.entries@[i].0.wf());
        self.entries@[i].0.lemma_wf_nonempty();
    }

    /// An empty table.
    pub fn new() -> (map: Self)
        ensures
            map.wf(),
            map@ == Map::<Seq<TextUnit>, Binding>::empty(),
    {
        Keymap { entries: Vec::new(), table: Ghost(Map::empty()) }
    }

    /// The position of `key`, if bound.
    fn position(&self, key: &KeySequence) -> (index: Option<usize>)
        requires
            self.wf(),
        ensures
            match index {
                Some(i) => i < self.entries@.len() && self.entries@[i as int].0@ == key@,
                None => !self@.contains_key(key@),
            },
    {
        let mut i: usize = 0;
        while i < self.entries.len()
            invariant
                self.wf(),
                i <= self.entries@.len(),
                forall|j: int| 0 <= j < i ==> self.entries@[j].0@ != key@,
            decreases self.entries@.len() - i,
        {
            if self.entries[i].0.same_as(key) {
                return Some(i);
            }
            i = i + 1;
        }
        None
    }

    /// Install or replace a binding; the replaced binding is returned.
    pub fn bind(&mut self, key: KeySequence, binding: Binding) -> (previous: Option<Binding>)
        requires
            old(self).wf(),
        ensures
            final(self).wf(),
            final(self)@ == old(self)@.insert(key@, binding),
            previous == (if old(self)@.contains_key(key@) {
                Some(old(self)@[key@])
            } else {
                None::<Binding>
            }),
    {
        proof {
            use_type_invariant(&key);
        }
        let ghost k = key@;
        match self.position(&key) {
            Some(i) => {
                let entry = (key, binding);
                let ghost b = entry.1;
                let old_entry = self.entries.remove(i);
                self.entries.insert(i, entry);
                self.table = Ghost(self.table@.insert(k, b));
                proof {
                    assert forall|j: int| 0 <= j < self.entries@.len() implies {
                        &&& #[trigger] self.table@.contains_key(self.entries@[j].0@)
                        &&& self.table@[self.entries@[j].0@] == self.entries@[j].1
                        &&& self.entries@[j].0.wf()
                    } by {
                        if j != i {
                            assert(old(self).entries@[j] == self.entries@[j]);
                            assert(old(self).entries@[j].0@ != k);
                        }
                    }
                    assert forall|kk: Seq<TextUnit>| #[trigger] self.table@.contains_key(kk) implies exists|j: int|
                        0 <= j < self.entries@.len() && #[trigger] self.entries@[j].0@ == kk by {
                        if kk == k {
                            assert(self.entries@[i as int].0@ == kk);
                        } else {
                            let j = choose|j: int| 0 <= j < old(self).entries@.len() && #[trigger] old(self).entries@[j].0@ == kk;
                            assert(self.entries@[j] == old(self).entries@[j]);
                        }
                    }
                }
                Some(old_entry.1)
            },
            None => {
                let ghost b = binding;
                self.entries.push((key, binding));
                self.table = Ghost(self.table@.insert(k, b));
                proof {
                    let n = self.entries@.len() - 1;
                    assert forall|j: int| 0 <= j < self.entries@.len() implies {
                        &&& #[trigger] self.table@.contains_key(self.entries@[j].0@)
                        &&& self.table@[self.entries@[j].0@] == self.entries@[j].1
                        &&& self.entries@[j].0.wf()
                    } by {
                        if j != n {
                            assert(old(self).entries@[j] == self.entries@[j]);
                            assert(old(self).table@.contains_key(old(self).entries@[j].0@));
                        }
                    }
                    assert forall|kk: Seq<TextUnit>| #[trigger] self.table@.contains_key(kk) implies exists|j: int|
                        0 <= j < self.entries@.len() && #[trigger] self.entries@[j].0@ == kk by {
                        if kk == k {
                            assert(self.entries@[n].0@ == kk);
                        } else {
                            let j = choose|j: int| 0 <= j < old(self).entries@.len() && #[trigger] old(self).entries@[j].0@ == kk;
                            assert(self.entries@[j] == old(self).entries@[j]);
                        }
                    }
                    assert forall|a: int, c: int| 0 <= a < c < self.entries@.len() implies self.entries@[a].0@ != self.entries@[c].0@ by {
                        if c == n {
                            assert(old(self).table@.contains_key(old(self).entries@[a].0@));
                        }
                    }
                }
                None
            },
        }
    }

    /// Remove a binding; the removed binding is returned.
    pub fn unbind(&mut self, key: &KeySequence) -> (previous: Option<Binding>)
        requires
            old(self).wf(),
        ensures
            final(self).wf(),
            final(self)@ == old(self)@.remove(key@),
            previous == (if old(self)@.contains_key(key@) {
                Some(old(self)@[key@])
            } else {
                None::<Binding>
            }),
    {
        match self.position(key) {
            Some(i) => {
                let ghost before = self.entries@;
                let removed = self.entries.remove(i);
                self.table = Ghost(self.table@.remove(key@));
                proof {
                    assert forall|j: int| 0 <= j < self.entries@.len() implies {
                        &&& #[trigger] self.table@.contains_key(self.entries@[j].0@)
                        &&& self.table@[self.entries@[j].0@] == self.entries@[j].1
                        &&& self.entries@[j].0.wf()
                    } by {
                        let src = if j < i { j } else { j + 1 };
                        assert(self.entries@[j] == before[src]);
                        assert(before[src].0@ != before[i as int].0@);
                        assert(old(self).table@.contains_key(before[src].0@));
                        assert(before[src].0.wf());
                    }
                    assert forall|kk: Seq<TextUnit>| #[trigger] self.table@.contains_key(kk) implies exists|j: int|
                        0 <= j < self.entries@.len() && #[trigger] self.entries@[j].0@ == kk by {
                        let j = choose|j: int| 0 <= j < before.len() && #[trigger] before[j].0@ == kk;
                        assert(j != i);
                        if j < i {
                            assert(self.entries@[j] == before[j]);
                        } else {
                            assert(self.entries@[j - 1] == before[j]);
                        }
                    }
                    assert forall|a: int, c: int| 0 <= a < c < self.entries@.len() implies self.entries@[a].0@ != self.entries@[c].0@ by {
                        let sa = if a < i { a } else { a + 1 };
                        let sc = if c < i { c } else { c + 1 };
                        assert(self.entries@[a] == before[sa]);
                        assert(self.entries@[c] == before[sc]);
                    }
                }
                Some(removed.1)
            },
            None => {
                assert(self.table@.remove(key@) =~= self.table@);
                None
            },
        }
    }

    /// Remove every binding.
    pub fn clear(&mut self)
        ensures
            final(self).wf(),
            final(self)@ == Map::<Seq<TextUnit>, Binding>::empty(),
    {
        self.entries.clear();
        self.table = Ghost(Map::empty());
    }

    /// The binding of exactly `key`.
    pub fn binding(&self, key: &KeySequence) -> (found: Option<&Binding>)
        requires
            self.wf(),
        ensures
            match found {
                Some(b) => self@.contains_key(key@) && *b == self@[key@],
                None => !self@.contains_key(key@),
            },
    {
        match self.position(key) {
            Some(i) => {
                proof {
                    assert(self.table@.contains_key(self.entries@[i as int].0@));
                }
                Some(&self.entries[i].1)
            },
            None => None,
        }
    }

    /// Match `key` against this table.
    pub fn lookup(&self, key: &KeySequence) -> (result: KeyLookup)
        requires
            self.wf(),
        ensures
            lookup_result(self@, key@, result),
    {
        let found = self.binding(key);
        let mut longer = false;
        let mut i: usize = 0;
        while i < self.entries.len()
            invariant
                self.wf(),
                i <= self.entries@.len(),
                longer ==> has_longer_key(self@, key@),
                !longer ==> forall|j: int| 0 <= j < i ==> !(self.entries@[j].0@ != key@ && seq_starts_with(#[trigger] self.entries@[j].0@, key@)),
            decreases self.entries@.len() - i,
        {
            let candidate = &self.entries[i].0;
            if !candidate.same_as(key) && candidate.starts_with(key) {
                proof {
                    assert(self.table@.contains_key(self.entries@[i as int].0@));
                }
                longer = true;
            }
            i = i + 1;
        }
        proof {
            if !longer && has_longer_key(self@, key@) {
                let k = choose|k: Seq<TextUnit>| #[trigger] self@.contains_key(k) && k != key@ && seq_starts_with(k, key@);
                let j = choose|j: int| 0 <= j < self.entries@.len() && #[trigger] self.entries@[j].0@ == k;
                assert(false);
            }
        }
        match found {
            Some(b) => if longer {
                KeyLookup::Ambiguous(b)
            } else {
                KeyLookup::Exact(b)
            },
            None => if longer {
                KeyLookup::Prefix
            } else {
                KeyLookup::Unbound
            },
        }
    }

    /// Every binding, each key once.
    pub fn entries(&self) -> (entries: &[(KeySequence, Binding)])
        requires
            self.wf(),
        ensures
            forall|i: int| 0 <= i < entries@.len() ==> #[trigger] self@.contains_key(entries@[i].0@)
                && self@[entries@[i].0@] == entries@[i].1,
            forall|k: Seq<TextUnit>| #[trigger] self@.contains_key(k) ==> exists|i: int|
                0 <= i < entries@.len() && #[trigger] entries@[i].0@ == k,
            forall|i: int, j: int| 0 <= i < j < entries@.len() ==> entries@[i].0@ != entries@[j].0@,
    {
        self.entries.as_slice()
    }
}


/// A key made of one scalar.
fn key1(c: char) -> (key: KeySequence)
    ensures
        key.wf(),
        key@ == seq![TextUnit::Scalar(c)],
{
    let mut text = Text::new();
    text.push(TextUnit::Scalar(c));
    KeySequence::from_nonempty(text)
}

/// A key made of two scalars.
fn key2(first: char, second: char) -> (key: KeySequence)
    ensures
        key.wf(),
        key@ == seq![TextUnit::Scalar(first), TextUnit::Scalar(second)],
{
    let mut text = Text::new();
    text.push(TextUnit::Scalar(first));
    text.push(TextUnit::Scalar(second));
    KeySequence::from_nonempty(text)
}

fn word_motion(direction: Direction) -> (action: Action)
    ensures
        action == Action::Move(Motion::Word { direction, kind: WordKind::Word }),
{
    Action::Move(Motion::Word { direction, kind: WordKind::Word })
}

fn word_transform(transform: TextTransform) -> (action: Action)
    ensures
        action == (Action::Transform {
            target: EditTarget::Word { direction: Direction::Next, kind: WordKind::Word },
            transform,
        }),
{
    Action::Transform {
        target: EditTarget::Word { direction: Direction::Next, kind: WordKind::Word },
        transform,
    }
}

fn vi(sequence: ViSequence) -> (binding: Binding)
    ensures
        binding == Binding::Sequence(CommandSequence::Vi(sequence)),
{
    Binding::Sequence(CommandSequence::Vi(sequence))
}

fn character_search(direction: Direction, landing: CharacterSearchLanding) -> (binding: Binding)
    ensures
        binding == Binding::Sequence(
            CommandSequence::Vi(ViSequence::CharacterSearch(CharacterSearch { direction, landing })),
        ),
{
    vi(ViSequence::CharacterSearch(CharacterSearch::new(direction, landing)))
}

/// The three keymaps of an editing session.
pub struct Keymaps {
    pub emacs: Keymap,
    pub vi_insert: Keymap,
    pub vi_command: Keymap,
}

impl Keymaps {
    pub open spec fn wf(&self) -> bool {
        self.emacs.wf() && self.vi_insert.wf() && self.vi_command.wf()
    }

    /// The table of one mode.
    pub open spec fn table(&self, mode: KeymapMode) -> Map<Seq<TextUnit>, Binding> {
        match mode {
            KeymapMode::Emacs => self.emacs@,
            KeymapMode::ViInsert => self.vi_insert@,
            KeymapMode::ViCommand => self.vi_command@,
        }
    }

    /// The built-in bindings of all three modes.
    pub fn defaults() -> (maps: Self)
        ensures
            maps.wf(),
            maps.table(KeymapMode::Emacs) == emacs_bindings(Map::empty()),
            maps.table(KeymapMode::ViInsert) == vi_insert_bindings(Map::empty()),
            maps.table(KeymapMode::ViCommand) == vi_command_bindings(Map::empty()),
    {
        let mut maps = Keymaps { emacs: Keymap::new(), vi_insert: Keymap::new(), vi_command: Keymap::new() };
        install_emacs(&mut maps.emacs);
        install_vi_insert(&mut maps.vi_insert);
        install_vi_command(&mut maps.vi_command);
        maps
    }

    fn map(&self, mode: KeymapMode) -> (map: &Keymap)
        ensures
            map@ == self.table(mode),
            self.wf() ==> map.wf(),
    {
        match mode {
            KeymapMode::Emacs => &self.emacs,
            KeymapMode::ViInsert => &self.vi_insert,
            KeymapMode::ViCommand => &self.vi_command,
        }
    }

    /// Install or replace a binding in one mode.
    pub fn bind(&mut self, mode: KeymapMode, key: KeySequence, binding: Binding) -> (previous: Option<Binding>)
        requires
            old(self).wf(),
        ensures
            final(self).wf(),
            final(self).table(mode) == old(self).table(mode).insert(key@, binding),
            forall|other: KeymapMode| other != mode ==> final(self).table(other) == old(self).table(other),
            previous == (if old(self).table(mode).contains_key(key@) {
                Some(old(self).table(mode)[key@])
            } else {
                None::<Binding>
            }),
    {
        match mode {
            KeymapMode::Emacs => self.emacs.bind(key, binding),
            KeymapMode::ViInsert => self.vi_insert.bind(key, binding),
            KeymapMode::ViCommand => self.vi_command.bind(key, binding),
        }
    }

    /// Remove a binding from one mode.
    pub fn unbind(&mut self, mode: KeymapMode, key: &KeySequence) -> (previous: Option<Binding>)
        requires
            old(self).wf(),
        ensures
            final(self).wf(),
            final(self).table(mode) == old(self).table(mode).remove(key@),
            forall|other: KeymapMode| other != mode ==> final(self).table(other) == old(self).table(other),
            previous == (if old(self).table(mode).contains_key(key@) {
                Some(old(self).table(mode)[key@])
            } else {
                None::<Binding>
            }),
    {
        match mode {
            KeymapMode::Emacs => self.emacs.unbind(key),
            KeymapMode::ViInsert => self.vi_insert.unbind(key),
            KeymapMode::ViCommand => self.vi_command.unbind(key),
        }
    }

    /// Remove every binding from one mode.
    pub fn clear(&mut self, mode: KeymapMode)
        requires
            old(self).wf(),
        ensures
            final(self).wf(),
            final(self).table(mode) == Map::<Seq<TextUnit>, Binding>::empty(),
            forall|other: KeymapMode| other != mode ==> final(self).table(other) == old(self).table(other),
    {
        match mode {
            KeymapMode::Emacs => self.emacs.clear(),
            KeymapMode::ViInsert => self.vi_insert.clear(),
            KeymapMode::ViCommand => self.vi_command.clear(),
        }
    }

    /// The exact binding of a key in one mode.
    pub fn binding(&self, mode: KeymapMode, key: &KeySequence) -> (found: Option<&Binding>)
        requires
            self.wf(),
        ensures
            match found {
                Some(b) => self.table(mode).contains_key(key@) && *b == self.table(mode)[key@],
                None => !self.table(mode).contains_key(key@),
            },
    {
        self.map(mode).binding(key)
    }

    /// Match a key against one mode.
    pub fn lookup(&self, mode: KeymapMode, key: &KeySequence) -> (result: KeyLookup)
        requires
            self.wf(),
        ensures
            lookup_result(self.table(mode), key@, result),
    {
        self.map(mode).lookup(key)
    }

    /// Every binding of one mode.
    pub fn bindings(&self, mode: KeymapMode) -> (entries: &[(KeySequence, Binding)])
        requires
            self.wf(),
        ensures
            forall|i: int| 0 <= i < entries@.len() ==> #[trigger] self.table(mode).contains_key(entries@[i].0@)
                && self.table(mode)[entries@[i].0@] == entries@[i].1,
            forall|k: Seq<TextUnit>| #[trigger] self.table(mode).contains_key(k) ==> exists|i: int|
                0 <= i < entries@.len() && #[trigger] entries@[i].0@ == k,
    {
        self.map(mode).entries()
    }
}

/// The built-in emacs bindings added to `m`.
pub open spec fn emacs_bindings(m: Map<Seq<TextUnit>, Binding>) -> Map<Seq<TextUnit>, Binding> {
    m
        .insert(seq![TextUnit::Scalar('\u{1}')], Binding::Action(Action::Move(Motion::StartOfLine)))
        .insert(seq![TextUnit::Scalar('\u{2}')], Binding::Action(Action::Move(Motion::Character(Direction::Previous))))
        .insert(seq![TextUnit::Scalar('\u{4}')], Binding::Action(Action::DeleteOrEndOfInput))
        .insert(seq![TextUnit::Scalar('\u{5}')], Binding::Action(Action::Move(Motion::EndOfLine)))
        .insert(seq![TextUnit::Scalar('\u{6}')], Binding::Action(Action::Move(Motion::Character(Direction::Next))))
        .insert(seq![TextUnit::Scalar('\u{8}')], Binding::Action(Action::Delete(EditTarget::Character(Direction::Previous))))
        .insert(seq![TextUnit::Scalar('\u{b}')], Binding::Action(Action::Kill(EditTarget::Motion(Motion::EndOfLine))))
        .insert(seq![TextUnit::Scalar('\u{c}')], Binding::Action(Action::Refresh(Refresh::Full)))
        .insert(seq![TextUnit::Scalar('\u{e}')], Binding::Action(Action::History(Direction::Next)))
        .insert(seq![TextUnit::Scalar('\u{10}')], Binding::Action(Action::History(Direction::Previous)))
        .insert(seq![TextUnit::Scalar('\u{14}')], Binding::Action(Action::TransposeCharacters))
        .insert(seq![TextUnit::Scalar('\u{15}')], Binding::Action(Action::Kill(EditTarget::Motion(Motion::StartOfLine))))
        .insert(seq![TextUnit::Scalar('\u{17}')], Binding::Action(Action::Kill(EditTarget::Word { direction: Direction::Previous, kind: WordKind::Word })))
        .insert(seq![TextUnit::Scalar('\u{19}')], Binding::Action(Action::Yank(YankPlacement::AtCursor)))
        .insert(seq![TextUnit::Scalar('\u{1f}')], Binding::Action(Action::Undo))
        .insert(seq![TextUnit::Scalar('\t')], Binding::Action(Action::Complete))
        .insert(seq![TextUnit::Scalar('\n')], Binding::Action(Action::AcceptLine))
        .insert(seq![TextUnit::Scalar('\r')], Binding::Action(Action::AcceptLine))
        .insert(seq![TextUnit::Scalar('\u{7f}')], Binding::Action(Action::Delete(EditTarget::Character(Direction::Previous))))
        .insert(seq![TextUnit::Scalar('\u{16}')], Binding::Sequence(CommandSequence::QuotedInsert))
        .insert(seq![TextUnit::Scalar('\u{1b}')], Binding::Sequence(CommandSequence::MetaNext))
        .insert(seq![TextUnit::Scalar('\u{1b}'), TextUnit::Scalar('b')], Binding::Action(Action::Move(Motion::Word { direction: Direction::Previous, kind: WordKind::Word })))
        .insert(seq![TextUnit::Scalar('\u{1b}'), TextUnit::Scalar('c')], Binding::Action(Action::Transform { target: EditTarget::Word { direction: Direction::Next, kind: WordKind::Word }, transform: TextTransform::Capitalize }))
        .insert(seq![TextUnit::Scalar('\u{1b}'), TextUnit::Scalar('f')], Binding::Action(Action::Move(Motion::Word { direction: Direction::Next, kind: WordKind::Word })))
        .insert(seq![TextUnit::Scalar('\u{1b}'), TextUnit::Scalar('l')], Binding::Action(Action::Transform { target: EditTarget::Word { direction: Direction::Next, kind: WordKind::Word }, transform: TextTransform::Lowercase }))
        .insert(seq![TextUnit::Scalar('\u{1b}'), TextUnit::Scalar('u')], Binding::Action(Action::Transform { target: EditTarget::Word { direction: Direction::Next, kind: WordKind::Word }, transform: TextTransform::Uppercase }))
        .insert(seq![TextUnit::Scalar('\u{e2}')], Binding::Action(Action::Move(Motion::Word { direction: Direction::Previous, kind: WordKind::Word })))
        .insert(seq![TextUnit::Scalar('\u{e6}')], Binding::Action(Action::Move(Motion::Word { direction: Direction::Next, kind: WordKind::Word })))
}

/// The built-in vi insert-mode bindings added to `m`.
pub open spec fn vi_insert_bindings(m: Map<Seq<TextUnit>, Binding>) -> Map<Seq<TextUnit>, Binding> {
    m
        .insert(seq![TextUnit::Scalar('\u{1b}')], Binding::Sequence(CommandSequence::Vi(ViSequence::CommandMode)))
        .insert(seq![TextUnit::Scalar('\u{8}')], Binding::Action(Action::Delete(EditTarget::Character(Direction::Previous))))
        .insert(seq![TextUnit::Scalar('\u{17}')], Binding::Action(Action::Kill(EditTarget::Word { direction: Direction::Previous, kind: WordKind::Word })))
        .insert(seq![TextUnit::Scalar('\u{16}')], Binding::Sequence(CommandSequence::QuotedInsert))
        .insert(seq![TextUnit::Scalar('\n')], Binding::Action(Action::AcceptLine))
        .insert(seq![TextUnit::Scalar('\r')], Binding::Action(Action::AcceptLine))
}

/// The built-in vi command-mode bindings added to `m`.
pub open spec fn vi_command_bindings(m: Map<Seq<TextUnit>, Binding>) -> Map<Seq<TextUnit>, Binding> {
    m
        .insert(seq![TextUnit::Scalar('\u{1b}')], Binding::Sequence(CommandSequence::MetaNext))
        .insert(seq![TextUnit::Scalar('\u{16}')], Binding::Sequence(CommandSequence::QuotedInsert))
        .insert(seq![TextUnit::Scalar('0')], Binding::Action(Action::Move(Motion::StartOfLine)))
        .insert(seq![TextUnit::Scalar('$')], Binding::Action(Action::Move(Motion::EndOfLine)))
        .insert(seq![TextUnit::Scalar('b')], Binding::Action(Action::Move(Motion::Word { direction: Direction::Previous, kind: WordKind::Word })))
        .insert(seq![TextUnit::Scalar('B')], Binding::Action(Action::Move(Motion::Word { direction: Direction::Previous, kind: WordKind::BigWord })))
        .insert(seq![TextUnit::Scalar('h')], Binding::Action(Action::Move(Motion::Character(Direction::Previous))))
        .insert(seq![TextUnit::Scalar('i')], Binding::Sequence(CommandSequence::Vi(ViSequence::Insert(ViInsertPlacement::AtCursor))))
        .insert(seq![TextUnit::Scalar('a')], Binding::Sequence(CommandSequence::Vi(ViSequence::Insert(ViInsertPlacement::AfterCursor))))
        .insert(seq![TextUnit::Scalar('I')], Binding::Sequence(CommandSequence::Vi(ViSequence::Insert(ViInsertPlacement::StartOfLine))))
        .insert(seq![TextUnit::Scalar('A')], Binding::Sequence(CommandSequence::Vi(ViSequence::Insert(ViInsertPlacement::EndOfLine))))
        .insert(seq![TextUnit::Scalar('l')], Binding::Action(Action::Move(Motion::Character(Direction::Next))))
        .insert(seq![TextUnit::Scalar('p')], Binding::Action(Action::Yank(YankPlacement::AfterCursor)))
        .insert(seq![TextUnit::Scalar('u')], Binding::Action(Action::Undo))
        .insert(seq![TextUnit::Scalar('w')], Binding::Action(Action::Move(Motion::Word { direction: Direction::Next, kind: WordKind::Word })))
        .insert(seq![TextUnit::Scalar('W')], Binding::Action(Action::Move(Motion::Word { direction: Direction::Next, kind: WordKind::BigWord })))
        .insert(seq![TextUnit::Scalar('x')], Binding::Action(Action::Delete(EditTarget::Character(Direction::Next))))
        .insert(seq![TextUnit::Scalar('X')], Binding::Action(Action::Delete(EditTarget::Character(Direction::Previous))))
        .insert(seq![TextUnit::Scalar('D')], Binding::Action(Action::Kill(EditTarget::Motion(Motion::EndOfLine))))
        .insert(seq![TextUnit::Scalar('P')], Binding::Action(Action::Yank(YankPlacement::AtCursor)))
        .insert(seq![TextUnit::Scalar('R')], Binding::Sequence(CommandSequence::Vi(ViSequence::ReplaceMode)))
        .insert(seq![TextUnit::Scalar('d')], Binding::Sequence(CommandSequence::Vi(ViSequence::Operator(ViOperator::Delete))))
        .insert(seq![TextUnit::Scalar('c')], Binding::Sequence(CommandSequence::Vi(ViSequence::Operator(ViOperator::Change))))
        .insert(seq![TextUnit::Scalar('y')], Binding::Sequence(CommandSequence::Vi(ViSequence::Operator(ViOperator::Yank))))
        .insert(seq![TextUnit::Scalar('r')], Binding::Sequence(CommandSequence::Vi(ViSequence::ReplaceNext)))
        .insert(seq![TextUnit::Scalar('s')], Binding::Sequence(CommandSequence::Vi(ViSequence::Substitute(ViSubstitution::Characters))))
        .insert(seq![TextUnit::Scalar('S')], Binding::Sequence(CommandSequence::Vi(ViSequence::Substitute(ViSubstitution::Line))))
        .insert(seq![TextUnit::Scalar('C')], Binding::Sequence(CommandSequence::Vi(ViSequence::Substitute(ViSubstitution::ToEndOfLine))))
        .insert(seq![TextUnit::Scalar('f')], Binding::Sequence(CommandSequence::Vi(ViSequence::CharacterSearch(CharacterSearch { direction: Direction::Next, landing: CharacterSearchLanding::OnTarget }))))
        .insert(seq![TextUnit::Scalar('F')], Binding::Sequence(CommandSequence::Vi(ViSequence::CharacterSearch(CharacterSearch { direction: Direction::Previous, landing: CharacterSearchLanding::OnTarget }))))
        .insert(seq![TextUnit::Scalar('t')], Binding::Sequence(CommandSequence::Vi(ViSequence::CharacterSearch(CharacterSearch { direction: Direction::Next, landing: CharacterSearchLanding::BeforeTarget }))))
        .insert(seq![TextUnit::Scalar('T')], Binding::Sequence(CommandSequence::Vi(ViSequence::CharacterSearch(CharacterSearch { direction: Direction::Previous, landing: CharacterSearchLanding::BeforeTarget }))))
        .insert(seq![TextUnit::Scalar(';')], Binding::Sequence(CommandSequence::Vi(ViSequence::RepeatCharacterSearch(SearchRepetition::SameDirection))))
        .insert(seq![TextUnit::Scalar(',')], Binding::Sequence(CommandSequence::Vi(ViSequence::RepeatCharacterSearch(SearchRepetition::OppositeDirection))))
        .insert(seq![TextUnit::Scalar('.')], Binding::Sequence(CommandSequence::Vi(ViSequence::RepeatChange)))
        .insert(seq![TextUnit::Scalar('\u{12}')], Binding::Action(Action::Refresh(Refresh::Redisplay)))
        .insert(seq![TextUnit::Scalar('\n')], Binding::Action(Action::AcceptLine))
        .insert(seq![TextUnit::Scalar('\r')], Binding::Action(Action::AcceptLine))
}

/// The emacs word commands, whatever the table held before: ESC b and
/// ESC f move to the previous and next word, and ESC u, ESC l and ESC c
/// upcase, downcase and capitalize the word from the cursor on.
pub proof fn law_emacs_word_commands(m: Map<Seq<TextUnit>, Binding>)
    ensures
        ({
            let t = emacs_bindings(m);
            let esc = TextUnit::Scalar('\u{1b}');
            let next_word = EditTarget::Word { direction: Direction::Next, kind: WordKind::Word };
            &&& t.contains_key(seq![esc, TextUnit::Scalar('b')])
            &&& t[seq![esc, TextUnit::Scalar('b')]] == Binding::Action(
                Action::Move(Motion::Word { direction: Direction::Previous, kind: WordKind::Word }),
            )
            &&& t.contains_key(seq![esc, TextUnit::Scalar('f')])
            &&& t[seq![esc, TextUnit::Scalar('f')]] == Binding::Action(
                Action::Move(Motion::Word { direction: Direction::Next, kind: WordKind::Word }),
            )
            &&& t.contains_key(seq![esc, TextUnit::Scalar('u')])
            &&& t[seq![esc, TextUnit::Scalar('u')]] == Binding::Action(
                Action::Transform { target: next_word, transform: TextTransform::Uppercase },
            )
            &&& t.contains_key(seq![esc, TextUnit::Scalar('l')])
            &&& t[seq![esc, TextUnit::Scalar('l')]] == Binding::Action(
                Action::Transform { target: next_word, transform: TextTransform::Lowercase },
            )
            &&& t.contains_key(seq![esc, TextUnit::Scalar('c')])
            &&& t[seq![esc, TextUnit::Scalar('c')]] == Binding::Action(
                Action::Transform { target: next_word, transform: TextTransform::Capitalize },
            )
        }),
{
}

fn put(map: &mut Keymap, key: KeySequence, binding: Binding)
    requires
        old(map).wf(),
        key.wf(),
    ensures
        final(map).wf(),
        final(map)@ == old(map)@.insert(key@, binding),
{
    let _ = map.bind(key, binding);
}

fn install_emacs(map: &mut Keymap)
    requires
        old(map).wf(),
    ensures
        final(map).wf(),
        final(map)@ == emacs_bindings(old(map)@),
{
    put(map, key1('\u{1}'), Binding::Action(Action::Move(Motion::StartOfLine)));
    put(map, key1('\u{2}'), Binding::Action(Action::Move(Motion::Character(Direction::Previous))));
    put(map, key1('\u{4}'), Binding::Action(Action::DeleteOrEndOfInput));
    put(map, key1('\u{5}'), Binding::Action(Action::Move(Motion::EndOfLine)));
    put(map, key1('\u{6}'), Binding::Action(Action::Move(Motion::Character(Direction::Next))));
    put(map, key1('\u{8}'), Binding::Action(Action::Delete(EditTarget::Character(Direction::Previous))));
    put(map, key1('\u{b}'), Binding::Action(Action::Kill(EditTarget::Motion(Motion::EndOfLine))));
    put(map, key1('\u{c}'), Binding::Action(Action::Refresh(Refresh::Full)));
    put(map, key1('\u{e}'), Binding::Action(Action::History(Direction::Next)));
    put(map, key1('\u{10}'), Binding::Action(Action::History(Direction::Previous)));
    put(map, key1('\u{14}'), Binding::Action(Action::TransposeCharacters));
    put(map, key1('\u{15}'), Binding::Action(Action::Kill(EditTarget::Motion(Motion::StartOfLine))));
    put(
        map,
        key1('\u{17}'),
        Binding::Action(Action::Kill(EditTarget::Word { direction: Direction::Previous, kind: WordKind::Word })),
    );
    put(map, key1('\u{19}'), Binding::Action(Action::Yank(YankPlacement::AtCursor)));
    put(map, key1('\u{1f}'), Binding::Action(Action::Undo));
    put(map, key1('\t'), Binding::Action(Action::Complete));
    put(map, key1('\n'), Binding::Action(Action::AcceptLine));
    put(map, key1('\r'), Binding::Action(Action::AcceptLine));
    put(map, key1('\u{7f}'), Binding::Action(Action::Delete(EditTarget::Character(Direction::Previous))));
    put(map, key1('\u{16}'), Binding::Sequence(CommandSequence::QuotedInsert));
    put(map, key1('\u{1b}'), Binding::Sequence(CommandSequence::MetaNext));
    put(map, key2('\u{1b}', 'b'), Binding::Action(word_motion(Direction::Previous)));
    put(map, key2('\u{1b}', 'c'), Binding::Action(word_transform(TextTransform::Capitalize)));
    put(map, key2('\u{1b}', 'f'), Binding::Action(word_motion(Direction::Next)));
    put(map, key2('\u{1b}', 'l'), Binding::Action(word_transform(TextTransform::Lowercase)));
    put(map, key2('\u{1b}', 'u'), Binding::Action(word_transform(TextTransform::Uppercase)));
    put(map, key1('\u{e2}'), Binding::Action(word_motion(Direction::Previous)));
    put(map, key1('\u{e6}'), Binding::Action(word_motion(Direction::Next)));
}

fn install_vi_insert(map: &mut Keymap)
    requires
        old(map).wf(),
    ensures
        final(map).wf(),
        final(map)@ == vi_insert_bindings(old(map)@),
{
    put(map, key1('\u{1b}'), vi(ViSequence::CommandMode));
    put(map, key1('\u{8}'), Binding::Action(Action::Delete(EditTarget::Character(Direction::Previous))));
    put(
        map,
        key1('\u{17}'),
        Binding::Action(Action::Kill(EditTarget::Word { direction: Direction::Previous, kind: WordKind::Word })),
    );
    put(map, key1('\u{16}'), Binding::Sequence(CommandSequence::QuotedInsert));
    put(map, key1('\n'), Binding::Action(Action::AcceptLine));
    put(map, key1('\r'), Binding::Action(Action::AcceptLine));
}

fn install_vi_command(map: &mut Keymap)
    requires
        old(map).wf(),
    ensures
        final(map).wf(),
        final(map)@ == vi_command_bindings(old(map)@),
{
    put(map, key1('\u{1b}'), Binding::Sequence(CommandSequence::MetaNext));
    put(map, key1('\u{16}'), Binding::Sequence(CommandSequence::QuotedInsert));
    put(map, key1('0'), Binding::Action(Action::Move(Motion::StartOfLine)));
    put(map, key1('$'), Binding::Action(Action::Move(Motion::EndOfLine)));
    put(map, key1('b'), Binding::Action(Action::Move(Motion::Word { direction: Direction::Previous, kind: WordKind::Word })));
    put(map, key1('B'), Binding::Action(Action::Move(Motion::Word { direction: Direction::Previous, kind: WordKind::BigWord })));
    put(map, key1('h'), Binding::Action(Action::Move(Motion::Character(Direction::Previous))));
    put(map, key1('i'), vi(ViSequence::Insert(ViInsertPlacement::AtCursor)));
    put(map, key1('a'), vi(ViSequence::Insert(ViInsertPlacement::AfterCursor)));
    put(map, key1('I'), vi(ViSequence::Insert(ViInsertPlacement::StartOfLine)));
    put(map, key1('A'), vi(ViSequence::Insert(ViInsertPlacement::EndOfLine)));
    put(map, key1('l'), Binding::Action(Action::Move(Motion::Character(Direction::Next))));
    put(map, key1('p'), Binding::Action(Action::Yank(YankPlacement::AfterCursor)));
    put(map, key1('u'), Binding::Action(Action::Undo));
    put(map, key1('w'), Binding::Action(Action::Move(Motion::Word { direction: Direction::Next, kind: WordKind::Word })));
    put(map, key1('W'), Binding::Action(Action::Move(Motion::Word { direction: Direction::Next, kind: WordKind::BigWord })));
    put(map, key1('x'), Binding::Action(Action::Delete(EditTarget::Character(Direction::Next))));
    put(map, key1('X'), Binding::Action(Action::Delete(EditTarget::Character(Direction::Previous))));
    put(map, key1('D'), Binding::Action(Action::Kill(EditTarget::Motion(Motion::EndOfLine))));
    put(map, key1('P'), Binding::Action(Action::Yank(YankPlacement::AtCursor)));
    put(map, key1('R'), vi(ViSequence::ReplaceMode));
    put(map, key1('d'), vi(ViSequence::Operator(ViOperator::Delete)));
    put(map, key1('c'), vi(ViSequence::Operator(ViOperator::Change)));
    put(map, key1('y'), vi(ViSequence::Operator(ViOperator::Yank)));
    put(map, key1('r'), vi(ViSequence::ReplaceNext));
    put(map, key1('s'), vi(ViSequence::Substitute(ViSubstitution::Characters)));
    put(map, key1('S'), vi(ViSequence::Substitute(ViSubstitution::Line)));
    put(map, key1('C'), vi(ViSequence::Substitute(ViSubstitution::ToEndOfLine)));
    put(map, key1('f'), character_search(Direction::Next, CharacterSearchLanding::OnTarget));
    put(map, key1('F'), character_search(Direction::Previous, CharacterSearchLanding::OnTarget));
    put(map, key1('t'), character_search(Direction::Next, CharacterSearchLanding::BeforeTarget));
    put(map, key1('T'), character_search(Direction::Previous, CharacterSearchLanding::BeforeTarget));
    put(map, key1(';'), vi(ViSequence::RepeatCharacterSearch(SearchRepetition::SameDirection)));
    put(map, key1(','), vi(ViSequence::RepeatCharacterSearch(SearchRepetition::OppositeDirection)));
    put(map, key1('.'), vi(ViSequence::RepeatChange));
    put(map, key1('\u{12}'), Binding::Action(Action::Refresh(Refresh::Redisplay)));
    put(map, key1('\n'), Binding::Action(Action::AcceptLine));
    put(map, key1('\r'), Binding::Action(Action::AcceptLine));
}

} // verus!
