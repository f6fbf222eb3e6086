//! Parsed releases: a package name and a version, written `package@version`.

use vstd::prelude::*;
use vstd::string::*;
use crate::error::InvalidRelease;
use crate::hash::{is_build_hash, is_hash, lemma_hex_ascii};
use crate::text::{ascii_len, byte_count, byte_len, chars_of, opt_view};
use crate::trim::{lemma_trimmed_twice, trim, trimmed};
use crate::version::{version_of, Version, VersionView};

verus! {

/// The longest release, in bytes.
pub const MAX_RELEASE_LEN: usize = 250;

/// The names that no release may have: `.`, `..` and `latest`.
pub open spec fn is_restricted(t: Seq<char>) -> bool {
    t == seq!['.'] || t == seq!['.', '.'] || t == seq!['l', 'a', 't', 'e', 's', 't']
}

/// A character that no release may hold: `/` or a line break.
pub open spec fn is_bad_char(c: char) -> bool {
    c == '/' || c == '\r' || c == '\n'
}

/// `t` holds a character that no release may hold.
pub open spec fn has_bad_char(t: Seq<char>) -> bool {
    exists|i: int| 0 <= i < t.len() && is_bad_char(#[trigger] t[i])
}

/// `b` is a plain name: one or more characters other than `@`.
pub open spec fn is_plain_name(b: Seq<char>) -> bool {
    &&& b.len() > 0
    &&& forall|i: int| 0 <= i < b.len() ==> #[trigger] b[i] != '@'
}

/// `p` can be the package of a release: a plain name, which a single `@`
/// may lead.
pub open spec fn is_package(p: Seq<char>) -> bool {
    if p.len() > 0 && p[0] == '@' {
        is_plain_name(p.skip(1))
    } else {
        is_plain_name(p)
    }
}

/// The `@` at index `k` of `t` parts a package from what follows.
pub open spec fn is_split(t: Seq<char>, k: int) -> bool {
    &&& 0 <= k < t.len()
    &&& t[k] == '@'
    &&& is_package(t.take(k))
}

/// `t` can be parted into a package and what follows.
pub open spec fn has_split(t: Seq<char>) -> bool {
    exists|k: int| is_split(t, k)
}

/// The index at which `t` is parted.
pub open spec fn split_index(t: Seq<char>) -> int {
    choose|k: int| is_split(t, k)
}

/// What a release holds.
pub struct ReleaseView {
    /// The text that was parsed, trimmed.
    pub raw: Seq<char>,
    /// The package; empty where the text names none.
    pub package: Seq<char>,
    /// What follows the package, as it stands in the text; the whole text
    /// where it names no package.
    pub version_raw: Seq<char>,
    /// The version that `version_raw` denotes, unless it is a build hash
    /// or no version.
    pub version: Option<VersionView>,
}

impl ReleaseView {
    /// The release that a trimmed text makes.
    pub open spec fn of_text(t: Seq<char>) -> ReleaseView {
        let (package, version_raw) = if has_split(t) {
            (t.take(split_index(t)), t.skip(split_index(t) + 1))
        } else {
            (Seq::empty(), t)
        };
        ReleaseView {
            raw: t,
            package,
            version_raw,
            version: if is_hash(version_raw) {
                None
            } else {
                version_of(version_raw)
            },
        }
    }

    /// The build hash of the release: the build metadata of its version
    /// where that is a build hash, else what follows the package where
    /// that is one.
    pub open spec fn build_hash(self) -> Option<Seq<char>> {
        if self.version is Some && is_hash(self.version->0.build_code) {
            Some(self.version->0.build_code)
        } else if is_hash(self.version_raw) {
            Some(self.version_raw)
        } else {
            None
        }
    }

    /// The package as it is written out: followed by `@`, or nothing where
    /// there is no package.
    pub open spec fn package_prefix(self) -> Seq<char> {
        if self.package.len() > 0 {
            self.package + seq!['@']
        } else {
            Seq::empty()
        }
    }

    /// The canonical text of the release: the package, then the canonical
    /// text of the version, or, without a version, what follows the
    /// package as it stands.
    pub open spec fn text(self) -> Seq<char> {
        self.package_prefix() + match self.version {
            Some(v) => v.text(),
            None => self.version_raw,
        }
    }

    /// The build hash cut to its first 12 characters.
    pub open spec fn short_hash(self) -> Option<Seq<char>> {
        match self.build_hash() {
            Some(h) => Some(
                if h.len() > 12 {
                    h.take(12)
                } else {
                    h
                },
            ),
            None => None,
        }
    }

    /// The short description of the release. With a version: its numbers
    /// and pre-release tag, then in brackets the short build hash or,
    /// without one, the build metadata. Without a version: the short build
    /// hash or, without one, the canonical text.
    pub open spec fn description(self) -> Seq<char> {
        match self.version {
            Some(v) => v.numeric_text() + v.pre_suffix() + match self.short_hash() {
                Some(h) => seq![' ', '('] + h + seq![')'],
                None => if v.build_code.len() > 0 {
                    seq![' ', '('] + v.build_code + seq![')']
                } else {
                    Seq::empty()
                },
            },
            None => match self.short_hash() {
                Some(h) => h,
                None => self.text(),
            },
        }
    }
}

/// The release that a text denotes, or why it is refused. The checks come
/// in this order: length, restricted names, bad characters.
pub open spec fn release_of(s: Seq<char>) -> Result<ReleaseView, InvalidRelease> {
    let t = trimmed(s);
    if byte_len(t) > MAX_RELEASE_LEN {
        Err(InvalidRelease::TooLong)
    } else if is_restricted(t) {
        Err(InvalidRelease::RestrictedName)
    } else if has_bad_char(t) {
        Err(InvalidRelease::BadCharacters)
    } else {
        Ok(ReleaseView::of_text(t))
    }
}

/// A text is parted in one place at most.
pub proof fn lemma_split_unique(t: Seq<char>, j: int, k: int)
    requires
        is_split(t, j),
        is_split(t, k),
    ensures
        j == k,
{
    if j < k {
        let p = t.take(k);
        if p[0] == '@' {
            assert(j >= 1) by {
                if j == 0 {
                    assert(t.take(j).len() == 0);
                }
            }
            assert(p.skip(1)[j - 1] == t[j]);
        } else {
            assert(p[j] == t[j]);
        }
    } else if k < j {
        let p = t.take(j);
        if p[0] == '@' {
            assert(k >= 1) by {
                if k == 0 {
                    assert(t.take(k).len() == 0);
                }
            }
            assert(p.skip(1)[k - 1] == t[k]);
        } else {
            assert(p[k] == t[k]);
        }
    }
}

/// A description shows no more of a build hash than its first 12
/// characters: where a release has a build hash, its description is those
/// 12 characters alone, or, with a version, the numbers and the pre-release
/// tag of the version followed by those 12 characters in brackets.
pub proof fn lemma_description_cuts_hash(r: ReleaseView)
    requires
        r.build_hash() is Some,
    ensures
        r.short_hash() == Some(r.build_hash()->0.take(12)),
        r.short_hash()->0.len() == 12,
        r.version is None ==> r.description() == r.build_hash()->0.take(12),
        r.version matches Some(v) ==> r.description() == v.numeric_text() + v.pre_suffix()
            + seq![' ', '('] + r.build_hash()->0.take(12) + seq![')'],
{
    let h = r.build_hash()->0;
    assert(is_hash(h));
    if h.len() == 12 {
        assert(h.take(12) =~= h);
    }
    if let Some(v) = r.version {
        let short = h.take(12);
        assert(v.numeric_text() + v.pre_suffix() + (seq![' ', '('] + short + seq![')'])
            =~= v.numeric_text() + v.pre_suffix() + seq![' ', '('] + short + seq![')']);
    }
}

/// Whether the characters are those of a restricted name.
fn restricted_check(cs: &Vec<char>) -> (r: bool)
    ensures
        r == is_restricted(cs@),
{
    let n = cs.len();
    if n == 1 {
        let r = cs[0] == '.';
        assert(r ==> cs@ =~= seq!['.']);
        assert(!r ==> cs@[0] != seq!['.'][0]);
        r
    } else if n == 2 {
        let r = cs[0] == '.' && cs[1] == '.';
        assert(r ==> cs@ =~= seq!['.', '.']);
        assert(!r ==> cs@[0] != seq!['.', '.'][0] || cs@[1] != seq!['.', '.'][1]);
        r
    } else if n == 6 {
        let r = cs[0] == 'l' && cs[1] == 'a' && cs[2] == 't' && cs[3] == 'e' && cs[4] == 's'
            && cs[5] == 't';
        proof {
            let name = seq!['l', 'a', 't', 'e', 's', 't'];
            assert(r ==> cs@ =~= name);
            assert(!r ==> cs@[0] != name[0] || cs@[1] != name[1] || cs@[2] != name[2] || cs@[3]
                != name[3] || cs@[4] != name[4] || cs@[5] != name[5]);
        }
        r
    } else {
        false
    }
}

/// Whether one of the characters is one that no release may hold.
fn bad_char_check(cs: &Vec<char>) -> (r: bool)
    ensures
        r == has_bad_char(cs@),
{
    let n = cs.len();
    let mut i: usize = 0;
    while i < n
        invariant
            n == cs@.len(),
            i <= n,
            forall|k: int| 0 <= k < i ==> !is_bad_char(#[trigger] cs@[k]),
        decreases n - i,
    {
        let c = cs[i];
        if c == '/' || c == '\r' || c == '\n' {
            return true;
        }
        i = i + 1;
    }
    false
}

/// Finds the `@` that parts the package from what follows, if there is
/// one.
fn find_split(cs: &Vec<char>) -> (r: Option<usize>)
    ensures
        r is Some <==> has_split(cs@),
        r matches Some(k) ==> is_split(cs@, k as int),
{
    let n = cs.len();
    if n == 0 {
        return None;
    }
    let start: usize = if cs[0] == '@' {
        1
    } else {
        0
    };
    let mut k: usize = start;
    while k < n && cs[k] != '@'
        invariant
            n == cs@.len(),
            start <= k <= n,
            forall|i: int| start <= i < k ==> #[trigger] cs@[i] != '@',
        decreases n - k,
    {
        k = k + 1;
    }
    if k < n && k > start {
        proof {
            let p = cs@.take(k as int);
            if start == 1 {
                assert forall|i: int| 0 <= i < p.skip(1).len() implies #[trigger] p.skip(1)[i]
                    != '@' by {
                    assert(p.skip(1)[i] == cs@[i + 1]);
                }
            } else {
                assert forall|i: int| 0 <= i < p.len() implies #[trigger] p[i] != '@' by {
                    assert(p[i] == cs@[i]);
                }
            }
            assert(is_split(cs@, k as int));
        }
        Some(k)
    } else {
        proof {
            assert forall|j: int| !is_split(cs@, j) by {
                if is_split(cs@, j) {
                    let p = cs@.take(j);
                    if j == 0 {
                        assert(p.len() == 0);
                    } else if start == 1 {
                        if j == 1 {
                            assert(p.skip(1).len() == 0);
                        } else if k == start {
                            assert(p.skip(1)[0] == cs@[1]);
                        } else {
                            assert(cs@[j] != '@');
                        }
                    } else {
                        if k == start {
                            assert(cs@[0] != '@');
                        } else {
                            assert(cs@[j] != '@');
                        }
                    }
                }
            }
        }
        None
    }
}

/// A parsed release.
#[derive(Debug, PartialEq)]
pub struct Release<'a> {
    raw: &'a str,
    package: &'a str,
    version_raw: &'a str,
    version: Option<Version<'a>>,
}

impl<'a> View for Release<'a> {
    type V = ReleaseView;

    closed spec fn view(&self) -> ReleaseView {
        ReleaseView {
            raw: self.raw@,
            package: self.package@,
            version_raw: self.version_raw@,
            version: match self.version {
                Some(v) => Some(v@),
                None => None,
            },
        }
    }
}

impl<'a> Clone for Release<'a> {
    fn clone(&self) -> (r: Self)
        ensures
            r@ == self@,
    {
        proof {
            use_type_invariant(self);
        }
        let version = match &self.version {
            Some(v) => Some(v.clone()),
            None => None,
        };
        Release { raw: self.raw, package: self.package, version_raw: self.version_raw, version }
    }
}

impl<'a> Release<'a> {
    /// A release is what its raw text denotes.
    #[verifier::type_invariant]
    spec fn inv(self) -> bool {
        release_of(self.raw@) == Ok::<ReleaseView, InvalidRelease>(self@)
    }

    /// Parses a release from a string.
    pub fn parse(release: &'a str) -> (r: Result<Release<'a>, InvalidRelease>)
        ensures
            r matches Ok(v) ==> release_of(release@) == Ok::<ReleaseView, InvalidRelease>(v@),
            r matches Err(e) ==> release_of(release@) == Err::<ReleaseView, InvalidRelease>(e),
    {
        let input = release;
        let release = trim(input);
        proof {
            lemma_trimmed_twice(input@);
        }
        if byte_count(release) > MAX_RELEASE_LEN {
            return Err(InvalidRelease::TooLong);
        }
        let cs = chars_of(release);
        if restricted_check(&cs) {
            return Err(InvalidRelease::RestrictedName);
        }
        if bad_char_check(&cs) {
            return Err(InvalidRelease::BadCharacters);
        }
        let (package, version_raw) = match find_split(&cs) {
            Some(k) => {
                proof {
                    lemma_split_unique(cs@, k as int, split_index(cs@));
                }
                let package = release.substring_char(0, k);
                let version_raw = release.substring_char(k + 1, cs.len());
                assert(package@ =~= release@.take(k as int));
                assert(version_raw@ =~= release@.skip(k + 1));
                (package, version_raw)
            },
            None => {
                proof {
                    reveal_strlit("");
                }
                assert(""@ =~= Seq::<char>::empty());
                ("", release)
            },
        };
        let version = if is_build_hash(version_raw) {
            None
        } else {
            match Version::parse(version_raw) {
                Ok(v) => Some(v),
                Err(_) => None,
            }
        };
        Ok(Release { raw: release, package, version_raw, version })
    }

    /// Returns the raw release: the trimmed text that was parsed, of which
    /// this release is what it denotes.
    ///
    /// It's generally better to use `to_string` which normalizes.
    pub fn raw(&self) -> (r: &str)
        ensures
            r@ == self@.raw,
            release_of(r@) == Ok::<ReleaseView, InvalidRelease>(self@),
    {
        proof {
            use_type_invariant(self);
        }
        self.raw
    }

    /// Returns the contained package information.
    pub fn package(&self) -> (r: Option<&str>)
        ensures
            r is Some <==> self@.package.len() > 0,
            r matches Some(t) ==> t@ == self@.package,
    {
        if self.package.is_empty() {
            None
        } else {
            Some(self.package)
        }
    }

    /// The raw version part of the release.
    ///
    /// This is set even if the version part is not a valid version
    /// (for instance because it's a hash).
    pub fn version_raw(&self) -> (r: &str)
        ensures
            r@ == self@.version_raw,
    {
        self.version_raw
    }

    /// If a parsed version is available returns it.
    pub fn version(&self) -> (r: Option<&Version<'a>>)
        ensures
            r is Some <==> self@.version is Some,
            r matches Some(v) ==> v@ == self@.version->0,
    {
        self.version.as_ref()
    }

    /// Returns the build hash if available.
    pub fn build_hash(&self) -> (r: Option<&str>)
        ensures
            opt_view(r) == self@.build_hash(),
    {
        if let Some(version) = &self.version {
            if let Some(build_code) = version.build_code() {
                if is_build_hash(build_code) {
                    return Some(build_code);
                }
            }
        }
        if is_build_hash(self.version_raw) {
            Some(self.version_raw)
        } else {
            None
        }
    }

    /// Returns a short description.
    ///
    /// This returns a human readable format that includes an abbreviated
    /// name of the release.  Typically it will remove the package and it
    /// will try to abbreviate build hashes etc.
    pub fn describe(&self) -> (r: ReleaseDescription<'_>)
        ensures
            r@ == self@,
    {
        ReleaseDescription(self)
    }

    /// The build hash cut to its first 12 characters.
    fn short_hash(&self) -> (r: Option<&str>)
        ensures
            opt_view(r) == self@.short_hash(),
    {
        match self.build_hash() {
            Some(hash) => {
                proof {
                    lemma_hex_ascii(hash@);
                }
                if ascii_len(hash) > 12 {
                    let short = hash.substring_ascii(0, 12);
                    assert(short@ =~= hash@.take(12));
                    Some(short)
                } else {
                    Some(hash)
                }
            },
            None => None,
        }
    }

    /// Appends the canonical text of the release.
    fn push_text(&self, out: &mut String)
        ensures
            final(out)@ == old(out)@ + self@.text(),
    {
        proof {
            reveal_strlit("@");
        }
        if let Some(package) = self.package() {
            out.append(package);
            out.append("@");
        }
        match &self.version {
            Some(version) => {
                version.push_text(out);
            },
            None => {
                out.append(self.version_raw);
            },
        }
        proof {
            assert("@"@ =~= seq!['@']);
            assert(final(out)@ =~= old(out)@ + self@.text());
        }
    }

    /// The canonical text of the release: the package followed by `@`,
    /// where there is one, then the canonical text of the version or,
    /// without a version, what follows the package as it stands.
    pub fn to_string(&self) -> (r: String)
        ensures
            r@ == self@.text(),
    {
        let mut out = String::new();
        self.push_text(&mut out);
        assert(out@ =~= self@.text());
        out
    }
}

/// Helper object to format a release into a description.
#[derive(Debug)]
pub struct ReleaseDescription<'a>(&'a Release<'a>);

impl<'a> View for ReleaseDescription<'a> {
    type V = ReleaseView;

    closed spec fn view(&self) -> ReleaseView {
        self.0@
    }
}

impl<'a> ReleaseDescription<'a> {
    /// The short description of the release.
    pub fn to_string(&self) -> (r: String)
        ensures
            r@ == self@.description(),
    {
        let release = self.0;
        let short_hash = release.short_hash();
        let mut out = String::new();
        proof {
            reveal_strlit(" (");
            reveal_strlit(")");
            assert(" ("@ =~= seq![' ', '(']);
            assert(")"@ =~= seq![')']);
        }
        match &release.version {
            Some(version) => {
                version.push_numeric(&mut out);
                version.push_pre(&mut out);
                if let Some(hash) = short_hash {
                    out.append(" (");
                    out.append(hash);
                    out.append(")");
                } else if let Some(build_code) = version.build_code() {
                    out.append(" (");
                    out.append(build_code);
                    out.append(")");
                }
            },
            None => {
                if let Some(hash) = short_hash {
                    out.append(hash);
                } else {
                    release.push_text(&mut out);
                }
            },
        }
        assert(out@ =~= self@.description());
        out
    }
}

} // verus!
