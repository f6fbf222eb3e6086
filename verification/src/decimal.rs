//! Decimal numerals: what a run of digits denotes, and how a number is
//! written.

use vstd::prelude::*;
use vstd::string::*;
use crate::text::{all_digits, ascii_at, ascii_len, digit_check, is_digit};

verus! {

/// The number a digit stands for.
pub open spec fn digit_value(c: char) -> nat {
    (c as int - '0' as int) as nat
}

/// The digit that stands for `d`, for `d` below ten.
pub open spec fn digit_char(d: nat) -> char {
    (d + '0' as nat) as char
}

/// The number a run of digits denotes in base ten; the empty run denotes 0.
pub open spec fn decimal_value(s: Seq<char>) -> nat
    decreases s.len(),
{
    if s.len() == 0 {
        0
    } else {
        decimal_value(s.drop_last()) * 10 + digit_value(s.last())
    }
}

/// The shortest decimal numeral of `n`.
pub open spec fn decimal_text(n: nat) -> Seq<char>
    decreases n,
{
    if n < 10 {
        seq![digit_char(n)]
    } else {
        decimal_text(n / 10).push(digit_char(n % 10))
    }
}

/// `s` reads as an unsigned 64-bit number: it is a run of one or more
/// digits that denotes no more than fits.
pub open spec fn is_unsigned(s: Seq<char>) -> bool {
    &&& s.len() > 0
    &&& all_digits(s)
    &&& decimal_value(s) <= u64::MAX
}

/// What a numeric field holds for a run of digits: the number it denotes,
/// or 0 when that number does not fit in 64 bits.
pub open spec fn numeric_field(s: Seq<char>) -> u64 {
    if decimal_value(s) <= u64::MAX {
        decimal_value(s) as u64
    } else {
        0
    }
}

/// A prefix of a numeral denotes no more than the numeral.
pub proof fn lemma_decimal_value_prefix(s: Seq<char>, n: int)
    requires
        0 <= n <= s.len(),
    ensures
        decimal_value(s.take(n)) <= decimal_value(s),
    decreases s.len(),
{
    if n == s.len() {
        assert(s.take(n) =~= s);
    } else {
        assert(s.drop_last().take(n) =~= s.take(n));
        lemma_decimal_value_prefix(s.drop_last(), n);
    }
}

/// A decimal numeral is made of digits, is not empty, and starts with `0`
/// only when it is `0`.
pub proof fn lemma_decimal_text_shape(n: nat)
    ensures
        decimal_text(n).len() > 0,
        all_digits(decimal_text(n)),
        decimal_text(n).len() == 1 || decimal_text(n)[0] != '0',
        n >= 1 ==> decimal_text(n)[0] != '0',
    decreases n,
{
    if n >= 10 {
        lemma_decimal_text_shape(n / 10);
        assert(decimal_text(n)[0] == decimal_text(n / 10)[0]);
    }
}

/// Reading back the numeral of `n` gives `n`.
pub proof fn lemma_decimal_round_trip(n: nat)
    ensures
        decimal_value(decimal_text(n)) == n,
    decreases n,
{
    if n < 10 {
        assert(decimal_text(n).drop_last() =~= Seq::<char>::empty());
        assert(decimal_value(decimal_text(n).drop_last()) == 0);
    } else {
        lemma_decimal_round_trip(n / 10);
        assert(decimal_text(n).drop_last() =~= decimal_text(n / 10));
    }
}

/// Reads `s` as an unsigned 64-bit number in base ten: `None` where `s`
/// is empty, holds anything but digits, or denotes more than fits.
pub(crate) fn read_unsigned(s: &str) -> (r: Option<u64>)
    requires
        is_ascii(s),
    ensures
        r is Some <==> is_unsigned(s@),
        r matches Some(v) ==> v == decimal_value(s@),
{
    let n = ascii_len(s);
    if n == 0 {
        return None;
    }
    let mut acc: u64 = 0;
    let mut i: usize = 0;
    while i < n
        invariant
            is_ascii(s),
            n == s@.len(),
            i <= n,
            all_digits(s@.take(i as int)),
            acc == decimal_value(s@.take(i as int)),
        decreases n - i,
    {
        let c = ascii_at(s, i);
        if !digit_check(c) {
            return None;
        }
        let d: u64 = (c as u64) - ('0' as u64);
        proof {
            assert(s@.take(i + 1).drop_last() =~= s@.take(i as int));
            assert(s@.take(i + 1).last() == c);
            assert(decimal_value(s@.take(i + 1)) == acc * 10 + d);
            assert forall|k: int| 0 <= k < i + 1 implies is_digit(#[trigger] s@.take(i + 1)[k]) by {
                if k < i {
                    assert(s@.take(i + 1)[k] == s@.take(i as int)[k]);
                }
            }
            lemma_decimal_value_prefix(s@, i + 1);
        }
        if acc > (u64::MAX - d) / 10 {
            return None;
        }
        acc = acc * 10 + d;
        i = i + 1;
    }
    proof {
        assert(s@.take(n as int) =~= s@);
    }
    Some(acc)
}

/// Reads a run of digits as a 64-bit number; a run that denotes more than
/// fits reads as 0.
pub(crate) fn read_numeric(s: &str) -> (r: u64)
    requires
        is_ascii(s),
        all_digits(s@),
    ensures
        r == numeric_field(s@),
{
    match read_unsigned(s) {
        Some(v) => v,
        None => 0,
    }
}

/// The one-character string of a digit.
fn digit_str(d: u64) -> (r: &'static str)
    requires
        d < 10,
    ensures
        r@ == seq![digit_char(d as nat)],
{
    proof {
        reveal_strlit("0");
        reveal_strlit("1");
        reveal_strlit("2");
        reveal_strlit("3");
        reveal_strlit("4");
        reveal_strlit("5");
        reveal_strlit("6");
        reveal_strlit("7");
        reveal_strlit("8");
        reveal_strlit("9");
    }
    let r = match d {
        0 => "0",
        1 => "1",
        2 => "2",
        3 => "3",
        4 => "4",
        5 => "5",
        6 => "6",
        7 => "7",
        8 => "8",
        _ => "9",
    };
    assert(r@ =~= seq![digit_char(d as nat)]);
    r
}

/// Appends the decimal numeral of `n` to `out`.
pub(crate) fn push_decimal(out: &mut String, n: u64)
    ensures
        final(out)@ == old(out)@ + decimal_text(n as nat),
    decreases n,
{
    if n >= 10 {
        push_decimal(out, n / 10);
    }
    out.append(digit_str(n % 10));
    proof {
        if n >= 10 {
            assert(final(out)@ =~= old(out)@ + decimal_text(n as nat));
        } else {
            assert(final(out)@ =~= old(out)@ + decimal_text(n as nat));
        }
    }
}

} // verus!
