//! The grammar of version texts.
//!
//! A version text is a major number, up to two further numbers led by a
//! dot, an optional pre-release tag and optional build metadata led by `+`.
//! The grammar is stated by [`VersionParts`]: a text is a version exactly
//! when it is the concatenation of well-formed parts, and those parts are
//! then unique.

use vstd::prelude::*;
use vstd::utf8::is_ascii_chars;
use crate::text::{all_digits, is_digit, is_ident_char, is_lower};

verus! {

/// A number of the version: `0`, or digits that do not start with `0`.
pub open spec fn is_numeric(t: Seq<char>) -> bool {
    &&& t.len() > 0
    &&& all_digits(t)
    &&& (t.len() == 1 || t[0] != '0')
}

/// `t` is made of identifier characters and dots only.
pub open spec fn is_dotted_text(t: Seq<char>) -> bool {
    forall|k: int| 0 <= k < t.len() ==> is_ident_char(#[trigger] t[k]) || t[k] == '.'
}

/// `i..j` is a segment of `t`: a stretch without a dot that reaches from
/// the start of `t` or a dot to the next dot or the end of `t`.
pub open spec fn is_segment(t: Seq<char>, i: int, j: int) -> bool {
    &&& 0 <= i <= j <= t.len()
    &&& (i == 0 || t[i - 1] == '.')
    &&& (j == t.len() || t[j] == '.')
    &&& forall|k: int| i <= k < j ==> #[trigger] t[k] != '.'
}

/// An identifier of a pre-release tag, given that it is made of identifier
/// characters: it is not empty, and where it is made of digits alone it is
/// a number without a leading zero.
pub open spec fn is_pre_identifier(t: Seq<char>) -> bool {
    &&& t.len() > 0
    &&& (all_digits(t) ==> is_numeric(t))
}

/// The identifiers of a pre-release tag, that is the tag without its first
/// character: segments separated by dots, each a pre-release identifier;
/// the first segment alone may be empty.
pub open spec fn is_pre_identifiers(u: Seq<char>) -> bool {
    &&& is_dotted_text(u)
    &&& forall|i: int, j: int| #[trigger]
        is_segment(u, i, j) ==> (i == 0 && j == 0) || is_pre_identifier(u.subrange(i, j))
}

/// A pre-release tag as it stands in the text: a `-` or a lower-case
/// letter, then its identifiers.
pub open spec fn is_pre_release(t: Seq<char>) -> bool {
    &&& t.len() > 0
    &&& (t[0] == '-' || is_lower(t[0]))
    &&& is_pre_identifiers(t.skip(1))
}

/// Build metadata, without the `+` that leads it: one or more segments
/// separated by dots, none of them empty.
pub open spec fn is_build_metadata(t: Seq<char>) -> bool {
    &&& is_dotted_text(t)
    &&& forall|i: int, j: int| #[trigger] is_segment(t, i, j) ==> i < j
}

/// The text of an optional number with the dot that leads it.
pub open spec fn dot_text(n: Option<Seq<char>>) -> Seq<char> {
    match n {
        Some(t) => seq!['.'] + t,
        None => Seq::empty(),
    }
}

/// The text of an optional pre-release tag.
pub open spec fn pre_text(pre: Option<Seq<char>>) -> Seq<char> {
    match pre {
        Some(t) => t,
        None => Seq::empty(),
    }
}

/// The text of optional build metadata with the `+` that leads it.
pub open spec fn build_text(build: Option<Seq<char>>) -> Seq<char> {
    match build {
        Some(t) => seq!['+'] + t,
        None => Seq::empty(),
    }
}

/// The parts a version text is made of, each as it stands in the text.
pub struct VersionParts {
    /// The digits of the major number.
    pub major: Seq<char>,
    /// The digits of the minor number, where there is one.
    pub minor: Option<Seq<char>>,
    /// The digits of the patch number, where there is one.
    pub patch: Option<Seq<char>>,
    /// The pre-release tag with its first character, where there is one.
    pub pre: Option<Seq<char>>,
    /// The build metadata after its `+`, where there is any.
    pub build: Option<Seq<char>>,
}

impl VersionParts {
    /// Each part is what the grammar allows in its place; a patch number
    /// comes only after a minor number.
    pub open spec fn wf(self) -> bool {
        &&& is_numeric(self.major)
        &&& (self.minor matches Some(t) ==> is_numeric(t))
        &&& (self.patch matches Some(t) ==> is_numeric(t) && self.minor is Some)
        &&& (self.pre matches Some(t) ==> is_pre_release(t))
        &&& (self.build matches Some(t) ==> is_build_metadata(t))
    }

    /// The parts written one after the other.
    pub open spec fn text(self) -> Seq<char> {
        self.major + dot_text(self.minor) + dot_text(self.patch) + pre_text(self.pre)
            + build_text(self.build)
    }
}

/// `s` is a version text: it can be taken apart into well-formed parts.
pub open spec fn is_version(s: Seq<char>) -> bool {
    exists|p: VersionParts| #[trigger] p.wf() && p.text() == s
}

/// The parts of a version text.
pub open spec fn parts_of(s: Seq<char>) -> VersionParts {
    choose|p: VersionParts| #[trigger] p.wf() && p.text() == s
}

/// The length of the run of digits that `s` starts with.
pub open spec fn digit_prefix_len(s: Seq<char>) -> nat
    decreases s.len(),
{
    if s.len() > 0 && is_digit(s[0]) {
        1 + digit_prefix_len(s.skip(1))
    } else {
        0
    }
}

/// The length of the stretch of `s` before its first `c`; the length of
/// `s` where it holds no `c`.
pub open spec fn span_before(s: Seq<char>, c: char) -> nat
    decreases s.len(),
{
    if s.len() > 0 && s[0] != c {
        1 + span_before(s.skip(1), c)
    } else {
        0
    }
}

/// Takes an optional number with its dot off the front of `r`: the number
/// and what is left.
pub open spec fn scan_dotted(r: Seq<char>) -> (Option<Seq<char>>, Seq<char>) {
    if r.len() > 0 && r[0] == '.' {
        let n = digit_prefix_len(r.skip(1)) as int;
        (Some(r.skip(1).take(n)), r.skip(1).skip(n))
    } else {
        (None, r)
    }
}

/// Cuts `r` at its first `+`: the pre-release tag before it and the build
/// metadata after it, each absent where nothing stands in its place.
pub open spec fn scan_tail(r: Seq<char>) -> (Option<Seq<char>>, Option<Seq<char>>) {
    let d = span_before(r, '+') as int;
    (
        if d > 0 {
            Some(r.take(d))
        } else {
            None
        },
        if r.len() > d {
            Some(r.skip(d + 1))
        } else {
            None
        },
    )
}

/// Cuts any text the way a version text is cut: at the ends of its runs of
/// digits and at its first `+`. The cut always gives the text back when
/// written out; the parts need not be well formed.
pub open spec fn scan(s: Seq<char>) -> VersionParts {
    let a = digit_prefix_len(s) as int;
    let (minor, r2) = scan_dotted(s.skip(a));
    let (patch, r3) = if minor is Some {
        scan_dotted(r2)
    } else {
        (None, r2)
    };
    let (pre, build) = scan_tail(r3);
    VersionParts { major: s.take(a), minor, patch, pre, build }
}

/// The run of digits at the start of `s` lies within `s`, is made of
/// digits, and ends at the end of `s` or before something else.
pub proof fn lemma_digit_prefix(s: Seq<char>)
    ensures
        digit_prefix_len(s) <= s.len(),
        all_digits(s.take(digit_prefix_len(s) as int)),
        digit_prefix_len(s) < s.len() ==> !is_digit(s[digit_prefix_len(s) as int]),
    decreases s.len(),
{
    if s.len() > 0 && is_digit(s[0]) {
        lemma_digit_prefix(s.skip(1));
        let n = digit_prefix_len(s.skip(1)) as int;
        assert forall|i: int| 0 <= i < n + 1 implies is_digit(#[trigger] s.take(n + 1)[i]) by {
            if i > 0 {
                assert(s.take(n + 1)[i] == s.skip(1).take(n)[i - 1]);
            }
        }
        if n + 1 < s.len() {
            assert(s[n + 1] == s.skip(1)[n]);
        }
    }
}

/// Digits followed by something that does not start with a digit are the
/// run of digits of the whole.
pub proof fn lemma_digit_prefix_of_concat(x: Seq<char>, y: Seq<char>)
    requires
        all_digits(x),
        y.len() == 0 || !is_digit(y[0]),
    ensures
        digit_prefix_len(x + y) == x.len(),
    decreases x.len(),
{
    if x.len() == 0 {
        assert(x + y =~= y);
    } else {
        assert((x + y)[0] == x[0]);
        assert((x + y).skip(1) =~= x.skip(1) + y);
        assert forall|i: int| 0 <= i < x.skip(1).len() implies is_digit(#[trigger] x.skip(1)[i]) by {
            assert(x.skip(1)[i] == x[i + 1]);
        }
        lemma_digit_prefix_of_concat(x.skip(1), y);
    }
}

/// The stretch before the first `c` lies within `s`, holds no `c`, and
/// ends at a `c` or at the end of `s`.
pub proof fn lemma_span_before(s: Seq<char>, c: char)
    ensures
        span_before(s, c) <= s.len(),
        span_before(s, c) < s.len() ==> s[span_before(s, c) as int] == c,
        forall|i: int| 0 <= i < span_before(s, c) ==> #[trigger] s[i] != c,
    decreases s.len(),
{
    if s.len() > 0 && s[0] != c {
        lemma_span_before(s.skip(1), c);
        let n = span_before(s.skip(1), c) as int;
        if n + 1 < s.len() {
            assert(s[n + 1] == s.skip(1)[n]);
        }
        assert forall|i: int| 0 <= i < n + 1 implies #[trigger] s[i] != c by {
            if i > 0 {
                assert(s[i] == s.skip(1)[i - 1]);
            }
        }
    }
}

/// A text without `c`, followed by nothing or by a `c`, is the stretch
/// before the first `c` of the whole.
pub proof fn lemma_span_before_of_concat(x: Seq<char>, y: Seq<char>, c: char)
    requires
        forall|i: int| 0 <= i < x.len() ==> #[trigger] x[i] != c,
        y.len() == 0 || y[0] == c,
    ensures
        span_before(x + y, c) == x.len(),
    decreases x.len(),
{
    if x.len() == 0 {
        assert(x + y =~= y);
    } else {
        assert((x + y)[0] == x[0]);
        assert((x + y).skip(1) =~= x.skip(1) + y);
        assert forall|i: int| 0 <= i < x.skip(1).len() implies #[trigger] x.skip(1)[i] != c by {
            assert(x.skip(1)[i] == x[i + 1]);
        }
        lemma_span_before_of_concat(x.skip(1), y, c);
    }
}

/// An optional number taken off the front, written out before what is
/// left, gives the text back.
proof fn lemma_scan_dotted_text(r: Seq<char>)
    ensures
        dot_text(scan_dotted(r).0) + scan_dotted(r).1 == r,
{
    if r.len() > 0 && r[0] == '.' {
        lemma_digit_prefix(r.skip(1));
        let n = digit_prefix_len(r.skip(1)) as int;
        assert(seq!['.'] + r.skip(1).take(n) + r.skip(1).skip(n) =~= r);
    } else {
        assert(Seq::<char>::empty() + r =~= r);
    }
}

/// The two sides of the first `+`, written out, give the text back.
proof fn lemma_scan_tail_text(r: Seq<char>)
    ensures
        pre_text(scan_tail(r).0) + build_text(scan_tail(r).1) == r,
{
    lemma_span_before(r, '+');
    let d = span_before(r, '+') as int;
    if r.len() > d {
        assert(r.take(d) + (seq!['+'] + r.skip(d + 1)) =~= r);
        assert(Seq::<char>::empty() + (seq!['+'] + r.skip(d + 1)) =~= seq!['+'] + r.skip(d + 1));
    } else {
        assert(r.take(d) + Seq::<char>::empty() =~= r);
    }
}

/// Writing out the cut of a text gives the text back.
pub proof fn lemma_scan_text(s: Seq<char>)
    ensures
        scan(s).text() == s,
{
    lemma_digit_prefix(s);
    let a = digit_prefix_len(s) as int;
    let r1 = s.skip(a);
    let (minor, r2) = scan_dotted(r1);
    lemma_scan_dotted_text(r1);
    let (patch, r3) = if minor is Some {
        scan_dotted(r2)
    } else {
        (None, r2)
    };
    if minor is Some {
        lemma_scan_dotted_text(r2);
    } else {
        assert(Seq::<char>::empty() + r3 =~= r2);
    }
    let (pre, build) = scan_tail(r3);
    lemma_scan_tail_text(r3);
    let t1 = dot_text(minor);
    let t2 = dot_text(patch);
    let t3 = pre_text(pre);
    let t4 = build_text(build);
    assert(r3 == t3 + t4);
    assert(r2 == t2 + r3);
    assert(r1 == t1 + r2);
    assert(s =~= s.take(a) + r1);
    assert(s.take(a) + t1 + t2 + t3 + t4 =~= s.take(a) + (t1 + (t2 + (t3 + t4))));
}

/// A pre-release tag holds no `+` and starts with no digit and no dot.
proof fn lemma_pre_release_chars(t: Seq<char>)
    requires
        is_pre_release(t),
    ensures
        forall|i: int| 0 <= i < t.len() ==> #[trigger] t[i] != '+',
        !is_digit(t[0]),
        t[0] != '.',
{
    assert forall|i: int| 0 <= i < t.len() implies #[trigger] t[i] != '+' by {
        if i > 0 {
            assert(t[i] == t.skip(1)[i - 1]);
        }
    }
}

/// A dot, digits and a rest that starts with no digit are cut into the
/// digits and the rest.
proof fn lemma_scan_dotted_some(m: Seq<char>, rest: Seq<char>)
    requires
        all_digits(m),
        rest.len() == 0 || !is_digit(rest[0]),
    ensures
        scan_dotted(seq!['.'] + m + rest) == (Some(m), rest),
{
    let r = seq!['.'] + m + rest;
    assert(r[0] == '.');
    assert(r.skip(1) =~= m + rest);
    lemma_digit_prefix_of_concat(m, rest);
    assert((m + rest).take(m.len() as int) =~= m);
    assert((m + rest).skip(m.len() as int) =~= rest);
}

/// A pre-release tag and build metadata, each well formed or absent, are
/// found again by cutting their text at its first `+`.
proof fn lemma_scan_tail_of_text(pre: Option<Seq<char>>, build: Option<Seq<char>>)
    requires
        pre matches Some(t) ==> is_pre_release(t),
    ensures
        scan_tail(pre_text(pre) + build_text(build)) == (pre, build),
{
    if let Some(t) = pre {
        lemma_pre_release_chars(t);
    }
    let r = pre_text(pre) + build_text(build);
    lemma_span_before_of_concat(pre_text(pre), build_text(build), '+');
    let d = pre_text(pre).len() as int;
    assert(r.take(d) =~= pre_text(pre));
    if let Some(b) = build {
        assert(r.skip(d + 1) =~= b);
    }
}

/// Well-formed parts are found again by cutting their text.
pub proof fn lemma_scan_of_text(p: VersionParts)
    requires
        p.wf(),
    ensures
        scan(p.text()) == p,
{
    let s = p.text();
    let t3 = pre_text(p.pre) + build_text(p.build);
    let t2 = dot_text(p.patch) + t3;
    let t1 = dot_text(p.minor) + t2;
    assert(s =~= p.major + t1);
    if let Some(t) = p.pre {
        lemma_pre_release_chars(t);
    }
    assert(t3.len() == 0 || (!is_digit(t3[0]) && t3[0] != '.'));
    assert(t2.len() == 0 || !is_digit(t2[0]));
    assert(t1.len() == 0 || !is_digit(t1[0]));

    lemma_digit_prefix_of_concat(p.major, t1);
    let a = p.major.len() as int;
    assert(s.take(a) =~= p.major);
    assert(s.skip(a) =~= t1);

    assert(scan_dotted(t1) == (p.minor, t2)) by {
        match p.minor {
            Some(m) => {
                lemma_scan_dotted_some(m, t2);
                assert(t1 =~= seq!['.'] + m + t2);
            },
            None => {
                assert(t1 =~= t3);
            },
        }
    }
    assert(p.minor is Some ==> scan_dotted(t2) == (p.patch, t3)) by {
        match p.patch {
            Some(q) => {
                lemma_scan_dotted_some(q, t3);
                assert(t2 =~= seq!['.'] + q + t3);
            },
            None => {
                assert(t2 =~= t3);
            },
        }
    }
    assert(p.minor is None ==> t2 =~= t3);
    lemma_scan_tail_of_text(p.pre, p.build);
}

/// A text is a version exactly when its cut is well formed, and the cut
/// then gives its parts: there is one way only to take a version apart.
pub proof fn lemma_version_by_scan(s: Seq<char>)
    ensures
        is_version(s) <==> scan(s).wf(),
        is_version(s) ==> parts_of(s) == scan(s),
{
    lemma_scan_text(s);
    if is_version(s) {
        let p = parts_of(s);
        lemma_scan_of_text(p);
    }
}

/// The parts of a version are determined by its text: well-formed parts
/// make a version, of which they are the parts.
pub proof fn lemma_parts_unique(p: VersionParts)
    requires
        p.wf(),
    ensures
        is_version(p.text()),
        parts_of(p.text()) == p,
{
    lemma_scan_of_text(p);
    lemma_version_by_scan(p.text());
}

/// The characters a version text is made of: identifier characters, dots
/// and `+`.
pub open spec fn is_version_char(c: char) -> bool {
    is_ident_char(c) || c == '.' || c == '+'
}

/// `t` is made of the characters of version texts.
pub open spec fn is_version_text(t: Seq<char>) -> bool {
    forall|i: int| 0 <= i < t.len() ==> is_version_char(#[trigger] t[i])
}

/// Two texts made of the characters of version texts make one such text.
proof fn lemma_version_text_concat(x: Seq<char>, y: Seq<char>)
    requires
        is_version_text(x),
        is_version_text(y),
    ensures
        is_version_text(x + y),
{
    assert forall|i: int| 0 <= i < (x + y).len() implies is_version_char(#[trigger] (x + y)[i]) by {
        if i < x.len() {
            assert((x + y)[i] == x[i]);
        } else {
            assert((x + y)[i] == y[i - x.len()]);
        }
    }
}

/// Each part of a version is made of the characters of version texts, with
/// the dot or `+` that leads it.
proof fn lemma_parts_chars(p: VersionParts)
    requires
        p.wf(),
    ensures
        is_version_text(p.major),
        is_version_text(dot_text(p.minor)),
        is_version_text(dot_text(p.patch)),
        is_version_text(pre_text(p.pre)),
        is_version_text(build_text(p.build)),
{
    assert forall|i: int| 0 <= i < p.major.len() implies is_version_char(#[trigger] p.major[i]) by {
        assert(is_digit(p.major[i]));
    }
    if let Some(m) = p.minor {
        let t = dot_text(p.minor);
        assert forall|i: int| 0 <= i < t.len() implies is_version_char(#[trigger] t[i]) by {
            if i > 0 {
                assert(is_digit(m[i - 1]));
            }
        }
    }
    if let Some(m) = p.patch {
        let t = dot_text(p.patch);
        assert forall|i: int| 0 <= i < t.len() implies is_version_char(#[trigger] t[i]) by {
            if i > 0 {
                assert(is_digit(m[i - 1]));
            }
        }
    }
    if let Some(t) = p.pre {
        assert forall|i: int| 0 <= i < t.len() implies is_version_char(#[trigger] t[i]) by {
            if i > 0 {
                assert(t[i] == t.skip(1)[i - 1]);
            }
        }
    }
    if let Some(b) = p.build {
        let t = build_text(p.build);
        assert forall|i: int| 0 <= i < t.len() implies is_version_char(#[trigger] t[i]) by {
            if i > 0 {
                assert(t[i] == b[i - 1]);
                assert(is_ident_char(b[i - 1]) || b[i - 1] == '.');
            }
        }
    }
}

/// A version text starts with a digit and is made of identifier
/// characters, dots and `+`.
pub proof fn lemma_version_chars(p: VersionParts)
    requires
        p.wf(),
    ensures
        p.text().len() > 0,
        is_digit(p.text()[0]),
        is_version_text(p.text()),
{
    lemma_parts_chars(p);
    let t1 = dot_text(p.minor);
    let t2 = dot_text(p.patch);
    let t3 = pre_text(p.pre);
    let t4 = build_text(p.build);
    lemma_version_text_concat(p.major, t1);
    lemma_version_text_concat(p.major + t1, t2);
    lemma_version_text_concat(p.major + t1 + t2, t3);
    lemma_version_text_concat(p.major + t1 + t2 + t3, t4);
    assert(p.text()[0] == p.major[0]);
}

/// A text made of the characters of version texts is ASCII.
pub proof fn lemma_version_text_ascii(t: Seq<char>)
    requires
        is_version_text(t),
    ensures
        is_ascii_chars(t),
{
    assert forall|i: int| 0 <= i < t.len() implies '\0' <= #[trigger] t[i] <= '\u{7f}' by {
        assert(is_version_char(t[i]));
    }
}

/// A version text is ASCII, and so are its pre-release tag and its build
/// metadata.
pub proof fn lemma_version_ascii(p: VersionParts)
    requires
        p.wf(),
    ensures
        is_ascii_chars(p.text()),
        is_ascii_chars(pre_text(p.pre)),
        is_ascii_chars(build_text(p.build)),
{
    lemma_version_chars(p);
    lemma_parts_chars(p);
    lemma_version_text_ascii(p.text());
    lemma_version_text_ascii(pre_text(p.pre));
    lemma_version_text_ascii(build_text(p.build));
}

} // verus!
