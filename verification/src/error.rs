//! The two ways parsing can fail.

use vstd::prelude::*;
use vstd::string::*;

verus! {

/// A text is no version: it does not match the grammar.
#[derive(Debug, Clone, Copy, PartialEq, Eq, Structural)]
pub struct InvalidVersion;

impl InvalidVersion {
    /// The message of this error.
    pub fn to_string(&self) -> (r: String)
        ensures
            r@ == "invalid version"@,
    {
        "invalid version".to_owned()
    }
}

/// Why a text is refused as a release.
#[derive(Debug, Clone, Copy, PartialEq, Eq, Structural)]
pub enum InvalidRelease {
    /// The release name is too long.
    TooLong,
    /// The release name is one of the restricted names.
    RestrictedName,
    /// The release holds a character that no release may hold.
    BadCharacters,
}

impl InvalidRelease {
    /// The message of this error.
    pub open spec fn message(self) -> Seq<char> {
        match self {
            InvalidRelease::BadCharacters => "invalid release: bad characters in release name"@,
            InvalidRelease::RestrictedName => "invalid release: restricted release name"@,
            InvalidRelease::TooLong => "invalid release: release name too long"@,
        }
    }

    /// The message of this error.
    pub fn to_string(&self) -> (r: String)
        ensures
            r@ == self.message(),
    {
        match self {
            InvalidRelease::BadCharacters => {
                "invalid release: bad characters in release name".to_owned()
            },
            InvalidRelease::RestrictedName => "invalid release: restricted release name".to_owned(),
            InvalidRelease::TooLong => "invalid release: release name too long".to_owned(),
        }
    }
}

} // verus!
