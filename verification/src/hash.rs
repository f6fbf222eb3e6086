//! Build hashes: hexadecimal strings of the lengths that source control
//! and digests give.

use vstd::prelude::*;
use vstd::string::*;
use vstd::utf8::is_ascii_chars;
use crate::text::{all_hex, ascii_at, ascii_len, hex_check, is_hex_digit};

verus! {

/// The lengths a build hash can have.
pub open spec fn is_hash_len(n: nat) -> bool {
    n == 12 || n == 16 || n == 20 || n == 32 || n == 40 || n == 64
}

/// `s` is a build hash: hexadecimal digits, in one of the lengths of
/// [`is_hash_len`].
pub open spec fn is_hash(s: Seq<char>) -> bool {
    is_hash_len(s.len()) && all_hex(s)
}

/// A text of hexadecimal digits is ASCII.
pub proof fn lemma_hex_ascii(s: Seq<char>)
    requires
        all_hex(s),
    ensures
        is_ascii_chars(s),
{
    assert forall|i: int| 0 <= i < s.len() implies '\0' <= #[trigger] s[i] <= '\u{7f}' by {
        assert(is_hex_digit(s[i]));
    }
}

/// Whether `s` is a build hash.
pub fn is_build_hash(s: &str) -> (r: bool)
    ensures
        r == is_hash(s@),
{
    if !s.is_ascii() {
        proof {
            if all_hex(s@) {
                lemma_hex_ascii(s@);
            }
        }
        return false;
    }
    let n = ascii_len(s);
    if !(n == 12 || n == 16 || n == 20 || n == 32 || n == 40 || n == 64) {
        return false;
    }
    let mut i: usize = 0;
    while i < n
        invariant
            is_ascii(s),
            n == s@.len(),
            i <= n,
            forall|k: int| 0 <= k < i ==> is_hex_digit(#[trigger] s@[k]),
        decreases n - i,
    {
        if !hex_check(ascii_at(s, i)) {
            return false;
        }
        i = i + 1;
    }
    true
}

} // verus!
