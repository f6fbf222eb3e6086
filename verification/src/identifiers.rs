//! The version of the `semver` crate, and the identifiers that a
//! pre-release tag and build metadata are made of there.

use vstd::prelude::*;
use vstd::string::*;
use semver::Version as SemverVersion;
use crate::scanner::span;
use crate::decimal::{decimal_value, is_unsigned, read_unsigned};
use crate::grammar::{lemma_span_before, span_before};
use crate::text::ascii_len;

verus! {

/// Makes `semver::Identifier` known to the verifier by its definition: an
/// enum of `Numeric`, which holds a `u64`, and `AlphaNumeric`, which holds
/// a `String`. Nothing more is claimed of it.
#[verifier::external_type_specification]
pub struct ExIdentifier(semver::Identifier);

/// Makes `semver::Version` known to the verifier by its definition: a
/// struct of the public fields `major`, `minor` and `patch`, each a `u64`,
/// and `pre` and `build`, each a `Vec` of identifiers. Nothing more is
/// claimed of it.
#[verifier::external_type_specification]
pub struct ExSemverVersion(SemverVersion);

/// The segments of `t`: the stretches between its dots, in order. A text
/// with `n` dots has `n + 1` segments, so the empty text has one, which is
/// empty.
pub open spec fn dot_segments(t: Seq<char>) -> Seq<Seq<char>>
    decreases t.len(),
{
    let n = span_before(t, '.') as int;
    if n < t.len() {
        seq![t.take(n)] + dot_segments(t.skip(n + 1))
    } else {
        seq![t]
    }
}

/// `id` is the identifier that the segment `t` makes: the number that `t`
/// denotes where `t` reads as an unsigned 64-bit number, `t` itself
/// otherwise.
pub open spec fn is_identifier_of(id: semver::Identifier, t: Seq<char>) -> bool {
    match id {
        semver::Identifier::Numeric(n) => is_unsigned(t) && n == decimal_value(t),
        semver::Identifier::AlphaNumeric(s) => !is_unsigned(t) && s@ == t,
    }
}

/// `ids` are the identifiers that the segments of `t` make, in order.
pub open spec fn are_identifiers_of(ids: Seq<semver::Identifier>, t: Seq<char>) -> bool {
    &&& ids.len() == dot_segments(t).len()
    &&& forall|k: int|
        0 <= k < ids.len() ==> is_identifier_of(#[trigger] ids[k], dot_segments(t)[k])
}

/// The identifier that a segment makes.
fn identifier(t: &str) -> (id: semver::Identifier)
    requires
        is_ascii(t),
    ensures
        is_identifier_of(id, t@),
{
    match read_unsigned(t) {
        Some(n) => semver::Identifier::Numeric(n),
        None => semver::Identifier::AlphaNumeric(t.to_owned()),
    }
}

/// The identifiers that the segments of `t` make.
pub(crate) fn identifiers(t: &str) -> (ids: Vec<semver::Identifier>)
    requires
        is_ascii(t),
    ensures
        are_identifiers_of(ids@, t@),
{
    let mut ids: Vec<semver::Identifier> = Vec::new();
    let mut rest = t;
    let mut done = false;
    assert(dot_segments(t@).take(0) + dot_segments(t@) =~= dot_segments(t@));
    while !done
        invariant
            is_ascii(rest),
            !done ==> dot_segments(t@) == dot_segments(t@).take(ids@.len() as int) + dot_segments(
                rest@,
            ),
            !done ==> ids@.len() < dot_segments(t@).len(),
            done ==> ids@.len() == dot_segments(t@).len(),
            forall|k: int|
                0 <= k < ids@.len() ==> is_identifier_of(#[trigger] ids@[k], dot_segments(t@)[k]),
        decreases rest@.len() + (if done { 0nat } else { 1nat }),
    {
        let len = ascii_len(rest);
        let n = span(rest, '.');
        proof {
            lemma_span_before(rest@, '.');
        }
        let segment = rest.substring_ascii(0, n);
        assert(segment@ =~= rest@.take(n as int));
        let ghost before = ids@;
        let ghost all = dot_segments(t@);
        let ghost here = dot_segments(rest@);
        assert(here[0] == segment@);
        assert(all[before.len() as int] == here[0]);
        ids.push(identifier(segment));
        if n < len {
            let next = rest.substring_ascii(n + 1, len);
            assert(next@ =~= rest@.skip(n + 1));
            proof {
                let tail = dot_segments(next@);
                assert(here =~= seq![segment@] + tail);
                let m = before.len() as int;
                assert(all =~= all.take(m + 1) + tail) by {
                    assert(all.take(m + 1) =~= all.take(m) + seq![segment@]);
                }
                assert(tail.len() > 0);
            }
            rest = next;
        } else {
            assert(here =~= seq![segment@]);
            done = true;
        }
    }
    ids
}

} // verus!
