//! Canonical texts read back as what they were written from.

use vstd::prelude::*;
use crate::decimal::{
    decimal_text, lemma_decimal_round_trip, lemma_decimal_text_shape, numeric_field,
};
use crate::error::InvalidRelease;
use crate::grammar::{
    build_text, dot_text, is_build_metadata, is_numeric, is_pre_identifier, is_pre_release,
    is_segment, is_version, is_version_char, is_version_text, lemma_parts_unique,
    lemma_version_chars, parts_of, pre_text, VersionParts,
};
use crate::hash::is_hash;
use crate::release::{
    has_bad_char, has_split, is_bad_char, is_restricted, is_split, lemma_split_unique,
    release_of, split_index, ReleaseView, MAX_RELEASE_LEN,
};
use crate::text::{byte_len, is_digit, is_ident_char, is_lower};
use crate::trim::{
    is_whitespace, lemma_trimmed_ends, lemma_trimmed_fixed, lemma_trimmed_twice, trimmed,
};
use crate::version::{pre_of, version_of, VersionView};

verus! {

impl VersionView {
    /// The parts of the canonical text of a version.
    pub open spec fn canonical_parts(self) -> VersionParts {
        VersionParts {
            major: decimal_text(self.major as nat),
            minor: if self.components >= 2 {
                Some(decimal_text(self.minor as nat))
            } else {
                None
            },
            patch: if self.components >= 3 {
                Some(decimal_text(self.patch as nat))
            } else {
                None
            },
            pre: if self.pre.len() > 0 {
                Some(seq!['-'] + self.pre)
            } else {
                None
            },
            build: if self.build_code.len() > 0 {
                Some(self.build_code)
            } else {
                None
            },
        }
    }
}

/// The numeral of a number is a number of the grammar, and denotes it.
proof fn lemma_numeral(n: u64)
    ensures
        is_numeric(decimal_text(n as nat)),
        numeric_field(decimal_text(n as nat)) == n,
{
    lemma_decimal_text_shape(n as nat);
    lemma_decimal_round_trip(n as nat);
}

/// A pre-release tag that starts with a letter is still one with a `-`
/// put before it: the letter then belongs to the first identifier.
proof fn lemma_dash_before_letter(t: Seq<char>)
    requires
        is_pre_release(t),
        is_lower(t[0]),
    ensures
        is_pre_release(seq!['-'] + t),
{
    let d = seq!['-'] + t;
    let u = t.skip(1);
    assert(d.skip(1) =~= t);
    assert forall|k: int| 0 <= k < t.len() implies is_ident_char(#[trigger] t[k]) || t[k]
        == '.' by {
        if k > 0 {
            assert(t[k] == u[k - 1]);
        }
    }
    assert forall|i: int, j: int| #[trigger] is_segment(t, i, j) implies (i == 0 && j == 0)
        || is_pre_identifier(t.subrange(i, j)) by {
        if i == 0 {
            assert(j > 0);
            assert(t.subrange(i, j)[0] == t[0]);
            assert(!is_digit(t[0]));
        } else {
            assert(t[i - 1] == '.');
            assert(i >= 2);
            assert forall|k: int| i - 1 <= k < j - 1 implies #[trigger] u[k] != '.' by {
                assert(u[k] == t[k + 1]);
            }
            assert(u[i - 2] == t[i - 1]);
            if j < t.len() {
                assert(u[j - 1] == t[j]);
            }
            assert(is_segment(u, i - 1, j - 1));
            assert(u.subrange(i - 1, j - 1) =~= t.subrange(i, j));
        }
    }
}

/// Build metadata is not empty.
proof fn lemma_build_metadata_not_empty(t: Seq<char>)
    requires
        is_build_metadata(t),
    ensures
        t.len() > 0,
{
    if t.len() == 0 {
        assert(is_segment(t, 0, 0));
    }
}

/// The pre-release tag of the canonical parts is well formed, and is kept
/// as the tag it was written from.
proof fn lemma_canonical_pre(p: VersionParts)
    requires
        p.wf(),
    ensures
        VersionView::of_parts(p).canonical_parts().pre matches Some(t) ==> is_pre_release(t),
        pre_of(VersionView::of_parts(p).canonical_parts().pre) == pre_of(p.pre),
{
    let v = VersionView::of_parts(p);
    if let Some(t) = p.pre {
        if t[0] == '-' {
            if t.len() > 1 {
                assert(seq!['-'] + t.skip(1) =~= t);
            }
        } else {
            lemma_dash_before_letter(t);
        }
    }
    if v.pre.len() > 0 {
        assert((seq!['-'] + v.pre).skip(1) =~= v.pre);
    }
    assert(pre_of(v.canonical_parts().pre) =~= v.pre);
}

/// The canonical parts of a parsed version are well formed.
proof fn lemma_canonical_parts_wf(p: VersionParts)
    requires
        p.wf(),
    ensures
        VersionView::of_parts(p).canonical_parts().wf(),
{
    let v = VersionView::of_parts(p);
    lemma_numeral(v.major);
    lemma_numeral(v.minor);
    lemma_numeral(v.patch);
    lemma_canonical_pre(p);
}

/// The canonical parts of a version make its canonical text.
proof fn lemma_canonical_parts_text(v: VersionView)
    requires
        1 <= v.components <= 3,
    ensures
        v.canonical_parts().text() == v.text(),
{
    let c = v.canonical_parts();
    assert(c.major + dot_text(c.minor) + dot_text(c.patch) =~= v.numeric_text());
    assert(pre_text(c.pre) == v.pre_suffix());
    assert(build_text(c.build) == v.build_suffix());
}

/// The canonical parts of a parsed version make the same version again,
/// with the canonical text as its raw text.
proof fn lemma_canonical_parts_version(p: VersionParts)
    requires
        p.wf(),
    ensures
        VersionView::of_parts(VersionView::of_parts(p).canonical_parts()) == (VersionView {
            raw: VersionView::of_parts(p).text(),
            ..VersionView::of_parts(p)
        }),
{
    let v = VersionView::of_parts(p);
    let c = v.canonical_parts();
    let w = VersionView::of_parts(c);
    lemma_canonical_parts_text(v);
    lemma_numeral(v.major);
    lemma_numeral(v.minor);
    lemma_numeral(v.patch);
    lemma_canonical_pre(p);
    if let Some(t) = p.build {
        lemma_build_metadata_not_empty(t);
    }
    assert(w.build_code =~= v.build_code);
    assert(w.major == v.major);
    assert(w.minor == v.minor);
    assert(w.patch == v.patch);
    assert(w.components == v.components);
}

/// A version has one, two or three components, and its canonical text is
/// a version text that denotes the same version: every field but the raw
/// text, which is then the canonical text, comes out as it was.
pub proof fn lemma_canonical_text_is_stable(s: Seq<char>)
    requires
        is_version(s),
    ensures
        1 <= version_of(s)->0.components <= 3,
        is_version(version_of(s)->0.text()),
        version_of(version_of(s)->0.text()) == Some(
            VersionView { raw: version_of(s)->0.text(), ..version_of(s)->0 },
        ),
{
    let p = parts_of(s);
    let v = VersionView::of_parts(p);
    lemma_canonical_parts_wf(p);
    lemma_canonical_parts_text(v);
    lemma_canonical_parts_version(p);
    lemma_parts_unique(v.canonical_parts());
}

/// The canonical text of a version starts with a digit and is made of
/// identifier characters, dots and `+`.
pub proof fn lemma_canonical_text_chars(s: Seq<char>)
    requires
        is_version(s),
    ensures
        version_of(s)->0.text().len() > 0,
        is_digit(version_of(s)->0.text()[0]),
        is_version_text(version_of(s)->0.text()),
{
    let p = parts_of(s);
    let v = VersionView::of_parts(p);
    lemma_canonical_parts_wf(p);
    lemma_canonical_parts_text(v);
    lemma_version_chars(v.canonical_parts());
}

/// The canonical text of a release without a version is its raw text.
proof fn lemma_release_text_is_raw(t: Seq<char>)
    requires
        ReleaseView::of_text(t).version is None,
    ensures
        ReleaseView::of_text(t).text() == t,
{
    let r = ReleaseView::of_text(t);
    if has_split(t) {
        let k = split_index(t);
        assert(is_split(t, k));
        assert(t.take(k) + seq!['@'] + t.skip(k + 1) =~= t);
    } else {
        assert(Seq::<char>::empty() + t =~= t);
    }
}

/// The canonical text of a release with a version, as the package, the
/// `@` after it and the canonical text of the version, is a text that
/// trimming leaves alone, that is no restricted name, holds no bad
/// character, and is parted where the package ends.
proof fn lemma_release_text_shape(t: Seq<char>, vt: Seq<char>)
    requires
        t.len() > 0 ==> !is_whitespace(t[0]),
        !has_bad_char(t),
        vt.len() > 0,
        is_digit(vt[0]),
        is_version_text(vt),
    ensures
        ({
            let r = ReleaseView::of_text(t);
            let x = r.package_prefix() + vt;
            let r2 = ReleaseView::of_text(x);
            &&& trimmed(x) == x
            &&& !is_restricted(x)
            &&& !has_bad_char(x)
            &&& r2.package == r.package
            &&& r2.version_raw == vt
        }),
{
    let r = ReleaseView::of_text(t);
    let x = r.package_prefix() + vt;
    let n = r.package_prefix().len() as int;
    assert(is_version_char(vt[vt.len() - 1]));
    assert(x.last() == vt[vt.len() - 1]);
    assert forall|i: int| 0 <= i < x.len() implies !is_bad_char(#[trigger] x[i]) by {
        if i >= n {
            assert(x[i] == vt[i - n]);
            assert(is_version_char(vt[i - n]));
        } else if i < n - 1 {
            assert(x[i] == t[i]);
        }
    }
    if has_split(t) {
        let k = split_index(t);
        assert(is_split(t, k));
        assert(t.take(k).len() > 0);
        assert(x[0] == t[0]);
        assert(x[k] == '@');
        assert(x.take(k) =~= t.take(k));
        assert(is_split(x, k));
        lemma_split_unique(x, k, split_index(x));
        assert(x.skip(k + 1) =~= vt);
        assert(!is_restricted(x)) by {
            if is_restricted(x) {
                assert(x[k] != '@');
            }
        }
    } else {
        assert(x =~= vt);
        assert forall|j: int| !is_split(x, j) by {
            if 0 <= j < x.len() {
                assert(is_version_char(vt[j]));
            }
        }
        assert(!is_restricted(x)) by {
            if is_restricted(x) {
                assert(x[0] == '.' || x[0] == 'l');
            }
        }
    }
    lemma_trimmed_fixed(x);
}

/// Parsing the canonical text of a release gives the release back: the
/// same package, the same version in every field but its raw text, and the
/// same build hash. This holds of every release whose canonical text is
/// not too long and whose version, if it has one, is not written as a
/// build hash. (The canonical text can be one byte longer than the raw
/// text, where a pre-release tag that starts with a letter gets its `-`;
/// and a number of twelve digits followed by a bare `-` is written as
/// twelve digits, which read as a hash.)
pub proof fn lemma_release_text_reparses(s: Seq<char>)
    requires
        release_of(s) is Ok,
        byte_len(release_of(s)->Ok_0.text()) <= MAX_RELEASE_LEN,
        release_of(s)->Ok_0.version matches Some(v) ==> !is_hash(v.text()),
    ensures
        release_of(release_of(s)->Ok_0.text()) is Ok,
        release_of(release_of(s)->Ok_0.text())->Ok_0.raw == release_of(s)->Ok_0.text(),
        release_of(release_of(s)->Ok_0.text())->Ok_0.package == release_of(s)->Ok_0.package,
        release_of(release_of(s)->Ok_0.text())->Ok_0.build_hash() == release_of(
            s,
        )->Ok_0.build_hash(),
        match release_of(s)->Ok_0.version {
            Some(v) => release_of(release_of(s)->Ok_0.text())->Ok_0.version == Some(
                VersionView { raw: v.text(), ..v },
            ),
            None => release_of(release_of(s)->Ok_0.text())->Ok_0.version is None,
        },
{
    let t = trimmed(s);
    let r = ReleaseView::of_text(t);
    lemma_trimmed_twice(s);
    lemma_trimmed_ends(s);
    match r.version {
        None => {
            lemma_release_text_is_raw(t);
        },
        Some(v) => {
            let vt = v.text();
            lemma_canonical_text_chars(r.version_raw);
            lemma_canonical_text_is_stable(r.version_raw);
            lemma_release_text_shape(t, vt);
            let x = r.text();
            let r2 = ReleaseView::of_text(x);
            assert(release_of(x) == Ok::<ReleaseView, InvalidRelease>(r2));
            assert(r2.version == Some(VersionView { raw: vt, ..v }));
        },
    }
}

/// On the releases that [`lemma_release_text_reparses`] leaves out, parsing
/// the canonical text does not give the release back: a canonical text that
/// is too long is refused, and a version that is written as a build hash
/// is read as one, so that no version comes out.
pub proof fn lemma_release_text_not_reparsed(s: Seq<char>)
    requires
        release_of(s) is Ok,
        release_of(s)->Ok_0.version is Some,
        byte_len(release_of(s)->Ok_0.text()) > MAX_RELEASE_LEN || is_hash(
            release_of(s)->Ok_0.version->0.text(),
        ),
    ensures
        byte_len(release_of(s)->Ok_0.text()) > MAX_RELEASE_LEN ==> release_of(
            release_of(s)->Ok_0.text(),
        ) == Err::<ReleaseView, InvalidRelease>(InvalidRelease::TooLong),
        byte_len(release_of(s)->Ok_0.text()) <= MAX_RELEASE_LEN ==> release_of(
            release_of(s)->Ok_0.text(),
        ) is Ok && release_of(release_of(s)->Ok_0.text())->Ok_0.version is None,
{
    let t = trimmed(s);
    let r = ReleaseView::of_text(t);
    let vt = r.version->0.text();
    lemma_trimmed_ends(s);
    lemma_canonical_text_chars(r.version_raw);
    lemma_release_text_shape(t, vt);
}

} // verus!
