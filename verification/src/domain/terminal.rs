//! Semantic tty modes.

use vstd::prelude::*;

verus! {

/// The semantic tty mode owned by an active native editor session.
#[derive(Debug, Clone, Copy, PartialEq, Eq, Hash, Structural)]
pub enum TerminalMode {
    /// Canonical host input outside interactive editing.
    Cooked,
    /// Character-at-a-time input used while editing a line.
    Editing,
    /// A temporary mode used to read one character literally.
    Quoted,
}

} // verus!
