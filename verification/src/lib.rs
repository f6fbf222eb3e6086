//! Parsing and rendering of release identifiers of the form `package@version`.
//!
//! The version part follows a relaxed grammar in the spirit of semantic
//! versioning: one to three numbers, a pre-release tag and build metadata.
//! What follows the package may also be a build hash, or any other text,
//! which is then kept as it stands.
//!
//! Every function is stated over the characters of its input and proved
//! against that statement: [`grammar`] says what a version text is,
//! [`version`] and [`release`] what parsing makes of a text, and
//! [`canonical`] that canonical texts read back as what they were written
//! from.

pub mod canonical;
pub mod decimal;
pub mod error;
pub mod grammar;
pub mod hash;
pub mod identifiers;
pub mod release;
mod scanner;
pub mod text;
pub mod trim;
pub mod version;

pub use error::{InvalidRelease, InvalidVersion};
pub use hash::is_build_hash;
pub use release::{Release, ReleaseDescription};
pub use version::Version;
