//! Hiding string literals of a program from static inspection with a
//! repeating-key XOR cipher, and recovering them at run time.
//!
//! - [`xor`]: the repeating-key XOR cipher, which is its own inverse.
//! - [`literal`] and [`escape`]: resolving the one string literal that a
//!   transformation site receives to the bytes it denotes.
//! - [`litcrypt`]: the build session's key, the encryption of literals and
//!   the run-time decoder.
//! - [`error`]: the ways these steps fail.
pub mod error;
pub mod escape;
pub mod litcrypt;
pub mod literal;
pub mod xor;
