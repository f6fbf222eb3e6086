//! The scanner: executable code that cuts a text the way the grammar does
//! and checks each part.

use vstd::prelude::*;
use vstd::string::*;
use crate::grammar::{
    digit_prefix_len, is_build_metadata, is_dotted_text, is_numeric, is_pre_identifier,
    is_pre_identifiers, is_pre_release, is_segment, is_version, lemma_digit_prefix,
    lemma_span_before, lemma_version_ascii, lemma_version_by_scan, parts_of, scan, scan_dotted,
    scan_tail, span_before, VersionParts,
};
use crate::text::{
    all_digits, ascii_at, ascii_len, digit_check, ident_check, is_digit, is_ident_char,
    opt_view,
};

verus! {

/// The length of the run of digits that `s` starts with.
fn digit_prefix(s: &str) -> (n: usize)
    requires
        is_ascii(s),
    ensures
        n == digit_prefix_len(s@),
{
    let len = ascii_len(s);
    let mut i: usize = 0;
    assert(s@.skip(0) =~= s@);
    while i < len && digit_check(ascii_at(s, i))
        invariant
            is_ascii(s),
            len == s@.len(),
            i <= len,
            digit_prefix_len(s@) == i + digit_prefix_len(s@.skip(i as int)),
        decreases len - i,
    {
        proof {
            assert(s@.skip(i as int)[0] == s@[i as int]);
            assert(s@.skip(i as int).skip(1) =~= s@.skip(i + 1));
        }
        i = i + 1;
    }
    proof {
        if i < len {
            assert(s@.skip(i as int)[0] == s@[i as int]);
        }
    }
    i
}

/// The length of the stretch of `s` before its first `c`.
pub(crate) fn span(s: &str, c: char) -> (n: usize)
    requires
        is_ascii(s),
    ensures
        n == span_before(s@, c),
{
    let len = ascii_len(s);
    let mut i: usize = 0;
    assert(s@.skip(0) =~= s@);
    while i < len && ascii_at(s, i) != c
        invariant
            is_ascii(s),
            len == s@.len(),
            i <= len,
            span_before(s@, c) == i + span_before(s@.skip(i as int), c),
        decreases len - i,
    {
        proof {
            assert(s@.skip(i as int)[0] == s@[i as int]);
            assert(s@.skip(i as int).skip(1) =~= s@.skip(i + 1));
        }
        i = i + 1;
    }
    proof {
        if i < len {
            assert(s@.skip(i as int)[0] == s@[i as int]);
        }
    }
    i
}

/// Whether a run of digits is a number of the version.
fn numeric_check(t: &str) -> (ok: bool)
    requires
        is_ascii(t),
        all_digits(t@),
    ensures
        ok == is_numeric(t@),
{
    let n = ascii_len(t);
    n == 1 || (n > 1 && ascii_at(t, 0) != '0')
}

/// What the grammar asks of the segment `i..j` of `u`: of the identifiers
/// of a pre-release tag when `pre` is set, of build metadata otherwise.
spec fn segment_ok(u: Seq<char>, i: int, j: int, pre: bool) -> bool {
    if pre {
        (i == 0 && j == 0) || is_pre_identifier(u.subrange(i, j))
    } else {
        i < j
    }
}

/// Checks one segment, given whether it is made of digits alone.
fn segment_check(u: &str, start: usize, end: usize, digits_only: bool, pre: bool) -> (ok: bool)
    requires
        is_ascii(u),
        start <= end <= u@.len(),
        digits_only == all_digits(u@.subrange(start as int, end as int)),
    ensures
        ok == segment_ok(u@, start as int, end as int, pre),
{
    if !pre {
        return start < end;
    }
    if end == 0 {
        return true;
    }
    if start == end {
        return false;
    }
    if !digits_only || end - start == 1 {
        return true;
    }
    let c = ascii_at(u, start);
    assert(u@.subrange(start as int, end as int)[0] == c);
    c != '0'
}

/// Checks the dotted identifiers of a pre-release tag, when `pre` is set,
/// or build metadata.
fn identifiers_check(u: &str, pre: bool) -> (ok: bool)
    requires
        is_ascii(u),
    ensures
        pre ==> ok == is_pre_identifiers(u@),
        !pre ==> ok == is_build_metadata(u@),
{
    let n = ascii_len(u);
    let mut start: usize = 0;
    let mut pos: usize = 0;
    let mut digits_only = true;
    while pos < n
        invariant
            is_ascii(u),
            n == u@.len(),
            start <= pos <= n,
            start == 0 || u@[start - 1] == '.',
            forall|k: int| 0 <= k < pos ==> is_ident_char(#[trigger] u@[k]) || u@[k] == '.',
            forall|k: int| start <= k < pos ==> #[trigger] u@[k] != '.',
            digits_only == all_digits(u@.subrange(start as int, pos as int)),
            forall|i: int, j: int| #[trigger]
                is_segment(u@, i, j) && j < start ==> segment_ok(u@, i, j, pre),
        decreases n - pos,
    {
        let c = ascii_at(u, pos);
        if c == '.' {
            assert(is_segment(u@, start as int, pos as int));
            if !segment_check(u, start, pos, digits_only, pre) {
                return false;
            }
            assert forall|i: int, j: int| #[trigger]
                is_segment(u@, i, j) && j < pos + 1 implies segment_ok(u@, i, j, pre) by {
                if j >= start {
                    assert(j == pos);
                    if i < start {
                        assert(u@[start - 1] == '.');
                    } else if i > start {
                        assert(u@[i - 1] != '.');
                    }
                    assert(i == start);
                }
            }
            start = pos + 1;
            digits_only = true;
        } else if ident_check(c) {
            proof {
                let before = u@.subrange(start as int, pos as int);
                let after = u@.subrange(start as int, pos + 1);
                if all_digits(before) && is_digit(c) {
                    assert forall|k: int| 0 <= k < after.len() implies is_digit(
                        #[trigger] after[k],
                    ) by {
                        if k < before.len() {
                            assert(after[k] == before[k]);
                        }
                    }
                }
                if all_digits(after) {
                    assert(after[pos - start] == c);
                    assert forall|k: int| 0 <= k < before.len() implies is_digit(
                        #[trigger] before[k],
                    ) by {
                        assert(before[k] == after[k]);
                    }
                }
            }
            digits_only = digits_only && digit_check(c);
        } else {
            assert(!is_dotted_text(u@));
            return false;
        }
        pos = pos + 1;
    }
    assert(is_dotted_text(u@));
    assert(is_segment(u@, start as int, n as int));
    let ok = segment_check(u, start, n, digits_only, pre);
    proof {
        if ok {
            assert forall|i: int, j: int| #[trigger] is_segment(u@, i, j) implies segment_ok(
                u@,
                i,
                j,
                pre,
            ) by {
                if j >= start {
                    assert(j == n);
                    if i < start {
                        assert(u@[start - 1] == '.');
                    } else if i > start {
                        assert(u@[i - 1] != '.');
                    }
                    assert(i == start);
                }
            }
        }
    }
    ok
}

/// Whether `t` is a pre-release tag as it stands in a version text.
fn pre_release_check(t: &str) -> (ok: bool)
    requires
        is_ascii(t),
    ensures
        ok == is_pre_release(t@),
{
    let n = ascii_len(t);
    if n == 0 {
        return false;
    }
    let c = ascii_at(t, 0);
    if !(c == '-' || ('a' <= c && c <= 'z')) {
        return false;
    }
    let u = t.substring_ascii(1, n);
    assert(u@ =~= t@.skip(1));
    identifiers_check(u, true)
}

/// The parts of a version text as slices of it.
pub(crate) struct Pieces<'a> {
    pub major: &'a str,
    pub minor: Option<&'a str>,
    pub patch: Option<&'a str>,
    pub pre: Option<&'a str>,
    pub build: Option<&'a str>,
}

impl<'a> Pieces<'a> {
    /// The parts as texts.
    pub(crate) open spec fn parts(self) -> VersionParts {
        VersionParts {
            major: self.major@,
            minor: opt_view(self.minor),
            patch: opt_view(self.patch),
            pre: opt_view(self.pre),
            build: opt_view(self.build),
        }
    }

    /// Every slice is ASCII.
    pub(crate) open spec fn ascii(self) -> bool {
        &&& is_ascii(self.major)
        &&& (self.minor matches Some(t) ==> is_ascii(t))
        &&& (self.patch matches Some(t) ==> is_ascii(t))
        &&& (self.pre matches Some(t) ==> is_ascii(t))
        &&& (self.build matches Some(t) ==> is_ascii(t))
    }
}

/// Takes an optional number with its dot off the front of `r`.
fn take_dotted<'a>(r: &'a str) -> (out: (Option<&'a str>, &'a str))
    requires
        is_ascii(r),
    ensures
        (opt_view(out.0), out.1@) == scan_dotted(r@),
        out.0 matches Some(t) ==> is_ascii(t) && all_digits(t@),
        is_ascii(out.1),
{
    let len = ascii_len(r);
    if len > 0 && ascii_at(r, 0) == '.' {
        let tail = r.substring_ascii(1, len);
        assert(tail@ =~= r@.skip(1));
        let n = digit_prefix(tail);
        proof {
            lemma_digit_prefix(tail@);
        }
        let number = tail.substring_ascii(0, n);
        let rest = tail.substring_ascii(n, len - 1);
        assert(number@ =~= r@.skip(1).take(n as int));
        assert(rest@ =~= r@.skip(1).skip(n as int));
        (Some(number), rest)
    } else {
        (None, r)
    }
}

/// Cuts `r` at its first `+` into a pre-release tag and build metadata.
fn take_tail<'a>(r: &'a str) -> (out: (Option<&'a str>, Option<&'a str>))
    requires
        is_ascii(r),
    ensures
        (opt_view(out.0), opt_view(out.1)) == scan_tail(r@),
        out.0 matches Some(t) ==> is_ascii(t),
        out.1 matches Some(t) ==> is_ascii(t),
{
    let len = ascii_len(r);
    let d = span(r, '+');
    proof {
        lemma_span_before(r@, '+');
    }
    let pre = if d > 0 {
        let t = r.substring_ascii(0, d);
        assert(t@ =~= r@.take(d as int));
        Some(t)
    } else {
        None
    };
    let build = if len > d {
        let t = r.substring_ascii(d + 1, len);
        assert(t@ =~= r@.skip(d + 1));
        Some(t)
    } else {
        None
    };
    (pre, build)
}

/// Takes a version text apart. The result is `None` exactly when the text
/// is no version.
pub(crate) fn split<'a>(s: &'a str) -> (r: Option<Pieces<'a>>)
    ensures
        r is Some <==> is_version(s@),
        r matches Some(p) ==> p.parts() == parts_of(s@) && p.parts().wf() && p.ascii(),
{
    proof {
        lemma_version_by_scan(s@);
    }
    if !s.is_ascii() {
        proof {
            if is_version(s@) {
                lemma_version_ascii(parts_of(s@));
            }
        }
        return None;
    }
    let len = ascii_len(s);
    let a = digit_prefix(s);
    proof {
        lemma_digit_prefix(s@);
    }
    let major = s.substring_ascii(0, a);
    let r1 = s.substring_ascii(a, len);
    assert(major@ =~= s@.take(a as int));
    assert(r1@ =~= s@.skip(a as int));
    let (minor, r2) = take_dotted(r1);
    let (patch, r3) = if minor.is_some() {
        take_dotted(r2)
    } else {
        (None, r2)
    };
    let (pre, build) = take_tail(r3);
    let pieces = Pieces { major, minor, patch, pre, build };
    assert(pieces.parts() == scan(s@));
    if !numeric_check(major) {
        return None;
    }
    if let Some(t) = minor {
        if !numeric_check(t) {
            return None;
        }
    }
    if let Some(t) = patch {
        if !numeric_check(t) {
            return None;
        }
    }
    if let Some(t) = pre {
        if !pre_release_check(t) {
            return None;
        }
    }
    if let Some(t) = build {
        if !identifiers_check(t, false) {
            return None;
        }
    }
    Some(pieces)
}

} // verus!
