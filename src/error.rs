//! The ways a build-time transformation or a run-time decode can fail.
use vstd::prelude::*;

verus! {

#[derive(Clone, Copy, Debug, PartialEq, Eq, Structural)]
pub enum LitcryptError {
    /// A transformation site received no argument, or more than one.
    ArgumentCount,
    /// The one argument of a transformation site is not a string literal.
    ArgumentKind,
    /// The operating system's random source could not produce a session key.
    RandomSource,
    /// Decoded bytes are not valid UTF-8: the key used to decode is not the
    /// key that encoded them.
    InvalidText,
}

} // verus!
