//! A line editor library: typed editing domain, editline line
//! buffer primitives, character classification, and a native editor session.

pub mod domain;
pub mod unicode;
pub mod chartype;
pub mod chared;
pub mod common;
pub mod editor;
