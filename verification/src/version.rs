//! Parsed versions.

use vstd::prelude::*;
use vstd::string::*;
use semver::Version as SemverVersion;
use crate::decimal::{decimal_text, numeric_field, push_decimal, read_numeric};
use crate::error::InvalidVersion;
use crate::grammar::{build_text, is_version, lemma_version_ascii, parts_of, VersionParts};
use crate::identifiers::{are_identifiers_of, identifiers};
use crate::scanner::split;
use crate::text::{ascii_at, ascii_len};

verus! {

/// What a version holds.
pub struct VersionView {
    /// The text that was parsed.
    pub raw: Seq<char>,
    /// The major number.
    pub major: u64,
    /// The minor number, 0 where the text has none.
    pub minor: u64,
    /// The patch number, 0 where the text has none.
    pub patch: u64,
    /// The pre-release tag without the `-` that may lead it; empty where
    /// the text has none.
    pub pre: Seq<char>,
    /// The build metadata after its `+`; empty where the text has none.
    pub build_code: Seq<char>,
    /// How many of the major, minor and patch numbers stand in the text.
    pub components: u8,
}

/// The number a part of the text denotes, 0 where the part is absent.
pub open spec fn number_of(part: Option<Seq<char>>) -> u64 {
    match part {
        Some(t) => numeric_field(t),
        None => 0,
    }
}

/// The pre-release tag as it is kept: without the `-` that may lead it.
pub open spec fn pre_of(part: Option<Seq<char>>) -> Seq<char> {
    match part {
        Some(t) => if t.len() > 0 && t[0] == '-' {
            t.skip(1)
        } else {
            t
        },
        None => Seq::empty(),
    }
}

/// The build metadata as it is kept.
pub open spec fn build_code_of(part: Option<Seq<char>>) -> Seq<char> {
    match part {
        Some(t) => t,
        None => Seq::empty(),
    }
}

/// 1 for a part that stands in the text, 0 for one that does not.
pub open spec fn present(part: Option<Seq<char>>) -> int {
    if part is Some {
        1
    } else {
        0
    }
}

/// How many of the three numbers the parts hold.
pub open spec fn components_of(p: VersionParts) -> u8 {
    (1 + present(p.minor) + present(p.patch)) as u8
}

impl VersionView {
    /// The version that the parts of a text make.
    pub open spec fn of_parts(p: VersionParts) -> VersionView {
        VersionView {
            raw: p.text(),
            major: numeric_field(p.major),
            minor: number_of(p.minor),
            patch: number_of(p.patch),
            pre: pre_of(p.pre),
            build_code: build_code_of(p.build),
            components: components_of(p),
        }
    }

    /// The numbers that stand in the text, joined by dots.
    pub open spec fn numeric_text(self) -> Seq<char> {
        if self.components == 1 {
            decimal_text(self.major as nat)
        } else if self.components == 2 {
            decimal_text(self.major as nat) + seq!['.'] + decimal_text(self.minor as nat)
        } else {
            decimal_text(self.major as nat) + seq!['.'] + decimal_text(self.minor as nat)
                + seq!['.'] + decimal_text(self.patch as nat)
        }
    }

    /// The pre-release tag as it is written out: led by `-`, or nothing
    /// where there is no tag.
    pub open spec fn pre_suffix(self) -> Seq<char> {
        if self.pre.len() > 0 {
            seq!['-'] + self.pre
        } else {
            Seq::empty()
        }
    }

    /// The build metadata as it is written out: led by `+`, or nothing
    /// where there is none.
    pub open spec fn build_suffix(self) -> Seq<char> {
        if self.build_code.len() > 0 {
            seq!['+'] + self.build_code
        } else {
            Seq::empty()
        }
    }

    /// The canonical text of the version.
    pub open spec fn text(self) -> Seq<char> {
        self.numeric_text() + self.pre_suffix() + self.build_suffix()
    }
}

/// The version that a text denotes, if it is one.
pub open spec fn version_of(s: Seq<char>) -> Option<VersionView> {
    if is_version(s) {
        Some(VersionView::of_parts(parts_of(s)))
    } else {
        None
    }
}

/// A parsed version.
#[derive(Debug, PartialEq)]
pub struct Version<'a> {
    raw: &'a str,
    major: u64,
    minor: u64,
    patch: u64,
    pre: &'a str,
    build_code: &'a str,
    components: u8,
}

impl<'a> View for Version<'a> {
    type V = VersionView;

    closed spec fn view(&self) -> VersionView {
        VersionView {
            raw: self.raw@,
            major: self.major,
            minor: self.minor,
            patch: self.patch,
            pre: self.pre@,
            build_code: self.build_code@,
            components: self.components,
        }
    }
}

impl<'a> Clone for Version<'a> {
    fn clone(&self) -> (r: Self)
        ensures
            r@ == self@,
    {
        proof {
            use_type_invariant(self);
        }
        Version {
            raw: self.raw,
            major: self.major,
            minor: self.minor,
            patch: self.patch,
            pre: self.pre,
            build_code: self.build_code,
            components: self.components,
        }
    }
}

impl<'a> Version<'a> {
    /// A version is what its raw text denotes.
    #[verifier::type_invariant]
    spec fn inv(self) -> bool {
        version_of(self.raw@) == Some(self@)
    }

    /// Parses a version from a string.
    pub fn parse(version: &'a str) -> (r: Result<Version<'a>, InvalidVersion>)
        ensures
            r is Ok <==> is_version(version@),
            r matches Ok(v) ==> Some(v@) == version_of(version@),
    {
        let pieces = match split(version) {
            Some(pieces) => pieces,
            None => {
                return Err(InvalidVersion);
            },
        };
        let mut components: u8 = 1;
        let major = read_numeric(pieces.major);
        let minor = match pieces.minor {
            Some(t) => {
                components = components + 1;
                read_numeric(t)
            },
            None => 0,
        };
        let patch = match pieces.patch {
            Some(t) => {
                components = components + 1;
                read_numeric(t)
            },
            None => 0,
        };
        proof {
            reveal_strlit("");
        }
        let pre = match pieces.pre {
            Some(t) => {
                let n = ascii_len(t);
                if ascii_at(t, 0) == '-' {
                    let rest = t.substring_ascii(1, n);
                    assert(rest@ =~= t@.skip(1));
                    rest
                } else {
                    t
                }
            },
            None => "",
        };
        let build_code = match pieces.build {
            Some(t) => t,
            None => "",
        };
        assert(""@ =~= Seq::<char>::empty());
        Ok(Version { raw: version, major, minor, patch, pre, build_code, components })
    }

    /// Converts the version into a semver: the three numbers as they are,
    /// and the pre-release tag and the build metadata each cut at its dots
    /// into identifiers.
    pub fn as_semver(&self) -> (r: SemverVersion)
        ensures
            r.major == self@.major,
            r.minor == self@.minor,
            r.patch == self@.patch,
            are_identifiers_of(r.pre@, self@.pre),
            are_identifiers_of(r.build@, self@.build_code),
    {
        proof {
            use_type_invariant(self);
            let p = parts_of(self.raw@);
            lemma_version_ascii(p);
            assert forall|i: int| 0 <= i < self.pre@.len() implies '\0' <= #[trigger] self.pre@[i]
                <= '\u{7f}' by {
                let t = p.pre->0;
                if t[0] == '-' {
                    assert(self.pre@[i] == t[i + 1]);
                }
            }
            assert forall|i: int| 0 <= i < self.build_code@.len() implies '\0'
                <= #[trigger] self.build_code@[i] <= '\u{7f}' by {
                assert(self.build_code@[i] == build_text(p.build)[i + 1]);
            }
        }
        SemverVersion {
            major: self.major,
            minor: self.minor,
            patch: self.patch,
            pre: identifiers(self.pre),
            build: identifiers(self.build_code),
        }
    }

    /// Returns the major version component.
    pub fn major(&self) -> (r: u64)
        ensures
            r == self@.major,
    {
        self.major
    }

    /// Returns the minor version component.
    pub fn minor(&self) -> (r: u64)
        ensures
            r == self@.minor,
    {
        self.minor
    }

    /// Returns the patch level version component.
    pub fn patch(&self) -> (r: u64)
        ensures
            r == self@.patch,
    {
        self.patch
    }

    /// If a pre-release identifier is included returns that.
    pub fn pre(&self) -> (r: Option<&str>)
        ensures
            r is Some <==> self@.pre.len() > 0,
            r matches Some(t) ==> t@ == self@.pre,
    {
        if self.pre.is_empty() {
            None
        } else {
            Some(self.pre)
        }
    }

    /// If a build code is included returns that.
    pub fn build_code(&self) -> (r: Option<&str>)
        ensures
            r is Some <==> self@.build_code.len() > 0,
            r matches Some(t) ==> t@ == self@.build_code,
    {
        if self.build_code.is_empty() {
            None
        } else {
            Some(self.build_code)
        }
    }

    /// Returns the number of components: 1, 2 or 3.
    pub fn components(&self) -> (r: u8)
        ensures
            r == self@.components,
            1 <= r <= 3,
    {
        proof {
            use_type_invariant(self);
        }
        self.components
    }

    /// Returns the raw version as string: the text that was parsed, of
    /// which this version is what it denotes.
    ///
    /// It's generally better to use `to_string` which normalizes.
    pub fn raw(&self) -> (r: &str)
        ensures
            r@ == self@.raw,
            version_of(r@) == Some(self@),
    {
        proof {
            use_type_invariant(self);
        }
        self.raw
    }

    /// Returns the version triple (major, minor, patch).
    pub fn triple(&self) -> (r: (u64, u64, u64))
        ensures
            r == (self@.major, self@.minor, self@.patch),
    {
        (self.major, self.minor, self.patch)
    }

    /// Returns the version triple with an added pre-release marker.
    pub fn quad(&self) -> (r: (u64, u64, u64, Option<&str>))
        ensures
            (r.0, r.1, r.2) == (self@.major, self@.minor, self@.patch),
            r.3 is Some <==> self@.pre.len() > 0,
            r.3 matches Some(t) ==> t@ == self@.pre,
    {
        (self.major, self.minor, self.patch, self.pre())
    }

    /// Appends the numbers that stand in the text, joined by dots.
    pub(crate) fn push_numeric(&self, out: &mut String)
        ensures
            final(out)@ == old(out)@ + self@.numeric_text(),
    {
        proof {
            reveal_strlit(".");
        }
        push_decimal(out, self.major);
        if self.components >= 2 {
            out.append(".");
            push_decimal(out, self.minor);
        }
        if self.components >= 3 {
            out.append(".");
            push_decimal(out, self.patch);
        }
        proof {
            use_type_invariant(self);
            assert("."@ =~= seq!['.']);
            assert(final(out)@ =~= old(out)@ + self@.numeric_text());
        }
    }

    /// Appends the pre-release tag, led by `-`, where there is one.
    pub(crate) fn push_pre(&self, out: &mut String)
        ensures
            final(out)@ == old(out)@ + self@.pre_suffix(),
    {
        proof {
            reveal_strlit("-");
        }
        if let Some(pre) = self.pre() {
            out.append("-");
            out.append(pre);
        }
        proof {
            assert("-"@ =~= seq!['-']);
            assert(final(out)@ =~= old(out)@ + self@.pre_suffix());
        }
    }

    /// Appends the canonical text of the version.
    pub(crate) fn push_text(&self, out: &mut String)
        ensures
            final(out)@ == old(out)@ + self@.text(),
    {
        proof {
            reveal_strlit("+");
        }
        self.push_numeric(out);
        self.push_pre(out);
        if let Some(build_code) = self.build_code() {
            out.append("+");
            out.append(build_code);
        }
        proof {
            assert("+"@ =~= seq!['+']);
            assert(final(out)@ =~= old(out)@ + self@.text());
        }
    }

    /// The canonical text of the version: the numbers that stand in the
    /// raw text, then the pre-release tag led by `-`, then the build
    /// metadata led by `+`.
    pub fn to_string(&self) -> (r: String)
        ensures
            r@ == self@.text(),
    {
        let mut out = String::new();
        self.push_text(&mut out);
        assert(out@ =~= self@.text());
        out
    }
}

} // verus!
