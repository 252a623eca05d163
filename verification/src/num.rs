//! Decimal rendering and parsing of unsigned integers.
//!
//! The metric sources expose their values as decimal text, and the emitted
//! segments render derived values back as decimal text, so both directions
//! are specified here over sequences of characters.

use crate::text::spec_trim;
use crate::text::trim_str;
use vstd::prelude::*;

verus! {

/// The character for one decimal digit value.
pub open spec fn digit_char(d: nat) -> char {
    if d == 0 {
        '0'
    } else if d == 1 {
        '1'
    } else if d == 2 {
        '2'
    } else if d == 3 {
        '3'
    } else if d == 4 {
        '4'
    } else if d == 5 {
        '5'
    } else if d == 6 {
        '6'
    } else if d == 7 {
        '7'
    } else if d == 8 {
        '8'
    } else {
        '9'
    }
}

/// The decimal representation of `n`, most significant digit first,
/// with no leading zeros (`0` itself is the single character `'0'`).
pub open spec fn dec_rep(n: nat) -> Seq<char>
    decreases n,
{
    if n < 10 {
        seq![digit_char(n)]
    } else {
        dec_rep(n / 10).push(digit_char(n % 10))
    }
}

/// The decimal representation of `n`, zero-extended on the left to at
/// least two characters.
pub open spec fn dec_pad2(n: nat) -> Seq<char> {
    if n < 10 {
        seq!['0'] + dec_rep(n)
    } else {
        dec_rep(n)
    }
}

/// The decimal representation of `n`, zero-extended on the left to at
/// least four characters.
pub open spec fn dec_pad4(n: nat) -> Seq<char> {
    if n < 10 {
        seq!['0', '0', '0'] + dec_rep(n)
    } else if n < 100 {
        seq!['0', '0'] + dec_rep(n)
    } else if n < 1000 {
        seq!['0'] + dec_rep(n)
    } else {
        dec_rep(n)
    }
}

/// Appends the single digit `d` to `s`.
fn push_digit(s: &mut String, d: u8)
    requires
        d < 10,
    ensures
        final(s)@ == old(s)@ + seq![digit_char(d as nat)],
{
    let lit: &str = match d {
        0 => "0",
        1 => "1",
        2 => "2",
        3 => "3",
        4 => "4",
        5 => "5",
        6 => "6",
        7 => "7",
        8 => "8",
        _ => "9",
    };
    proof {
        reveal_strlit("0");
        reveal_strlit("1");
        reveal_strlit("2");
        reveal_strlit("3");
        reveal_strlit("4");
        reveal_strlit("5");
        reveal_strlit("6");
        reveal_strlit("7");
        reveal_strlit("8");
        reveal_strlit("9");
        assert(lit@ =~= seq![digit_char(d as nat)]);
    }
    s.append(lit);
}

/// Appends the decimal representation of `n` to `s`.
fn push_u64(s: &mut String, n: u64)
    ensures
        final(s)@ == old(s)@ + dec_rep(n as nat),
    decreases n,
{
    if n >= 10 {
        push_u64(s, n / 10);
    }
    push_digit(s, (n % 10) as u8);
    proof {
        assert(final(s)@ =~= old(s)@ + dec_rep(n as nat));
    }
}

/// The decimal representation of `n` as a fresh string.
pub fn u64_string(n: u64) -> (s: String)
    ensures
        s@ == dec_rep(n as nat),
{
    let mut s = String::new();
    push_u64(&mut s, n);
    proof {
        assert(s@ =~= dec_rep(n as nat));
    }
    s
}

/// The decimal representation of `n`, zero-padded to at least two characters.
pub fn u64_pad2(n: u64) -> (s: String)
    ensures
        s@ == dec_pad2(n as nat),
{
    if n < 10 {
        let mut s = String::from_str("0");
        proof {
            reveal_strlit("0");
            assert(s@ =~= seq!['0']);
        }
        push_u64(&mut s, n);
        s
    } else {
        u64_string(n)
    }
}

/// The decimal representation of `n`, zero-padded to at least four characters.
pub fn u64_pad4(n: u64) -> (s: String)
    ensures
        s@ == dec_pad4(n as nat),
{
    if n < 10 {
        let mut s = String::from_str("000");
        proof {
            reveal_strlit("000");
            assert(s@ =~= seq!['0', '0', '0']);
        }
        push_u64(&mut s, n);
        s
    } else if n < 100 {
        let mut s = String::from_str("00");
        proof {
            reveal_strlit("00");
            assert(s@ =~= seq!['0', '0']);
        }
        push_u64(&mut s, n);
        s
    } else if n < 1000 {
        let mut s = String::from_str("0");
        proof {
            reveal_strlit("0");
            assert(s@ =~= seq!['0']);
        }
        push_u64(&mut s, n);
        s
    } else {
        u64_string(n)
    }
}

/// Whether `c` is a decimal digit.
pub open spec fn is_digit(c: char) -> bool {
    '0' <= c && c <= '9'
}

/// The numeric value of the digit character `c`.
pub open spec fn digit_val(c: char) -> nat {
    (c as nat - '0' as nat) as nat
}

/// Whether every character of `s` is a decimal digit.
pub open spec fn all_digits(s: Seq<char>) -> bool {
    forall|i: int| 0 <= i < s.len() ==> is_digit(#[trigger] s[i])
}

/// The numeric value of the digit string `s` (most significant first).
pub open spec fn digits_val(s: Seq<char>) -> nat
    decreases s.len(),
{
    if s.len() == 0 {
        0
    } else {
        digits_val(s.drop_last()) * 10 + digit_val(s.last())
    }
}

/// The value of a digit string never decreases when more digits follow.
proof fn lemma_digits_val_prefix_le(s: Seq<char>, i: int)
    requires
        0 <= i <= s.len(),
    ensures
        digits_val(s.subrange(0, i)) <= digits_val(s),
    decreases s.len() - i,
{
    if i == s.len() {
        assert(s.subrange(0, i) =~= s);
    } else {
        assert(s.subrange(0, i + 1).drop_last() =~= s.subrange(0, i));
        assert(digits_val(s.subrange(0, i)) <= digits_val(s.subrange(0, i + 1)));
        lemma_digits_val_prefix_le(s, i + 1);
    }
}

/// Parses `s` as an unsigned 64-bit decimal integer. Succeeds exactly when
/// `s` is nonempty, consists of decimal digits only, and its value fits.
pub fn parse_u64(s: &str) -> (r: Option<u64>)
    ensures
        r is Some <==> (s@.len() > 0 && all_digits(s@) && digits_val(s@) <= u64::MAX),
        r matches Some(v) ==> v == digits_val(s@),
{
    let len = s.unicode_len();
    if len == 0 {
        return None;
    }
    let mut acc: u64 = 0;
    let mut i: usize = 0;
    while i < len
        invariant
            0 <= i <= len,
            len == s@.len(),
            all_digits(s@.subrange(0, i as int)),
            acc == digits_val(s@.subrange(0, i as int)),
        decreases len - i,
    {
        let c = s.get_char(i);
        let cu = c as u32;
        if cu < 48 || cu > 57 {
            assert(!is_digit(s@[i as int]));
            return None;
        }
        let d: u64 = (cu - 48) as u64;
        let wide: u128 = acc as u128 * 10 + d as u128;
        proof {
            assert(s@.subrange(0, i + 1).drop_last() =~= s@.subrange(0, i as int));
            assert(s@.subrange(0, i + 1).last() == s@[i as int]);
            assert(digits_val(s@.subrange(0, i + 1)) == acc * 10 + d);
        }
        if wide > u64::MAX as u128 {
            proof {
                lemma_digits_val_prefix_le(s@, i + 1);
            }
            return None;
        }
        acc = wide as u64;
        i = i + 1;
    }
    proof {
        assert(s@.subrange(0, len as int) =~= s@);
    }
    Some(acc)
}

/// Parses the trimmed content of a metric file as an unsigned 64-bit
/// decimal integer. Succeeds exactly when the trimmed content is nonempty,
/// all digits, and fits.
pub fn parse_trimmed_u64(s: &str) -> (r: Option<u64>)
    ensures
        r is Some <==> (spec_trim(s@).len() > 0 && all_digits(spec_trim(s@)) && digits_val(
            spec_trim(s@),
        ) <= u64::MAX),
        r matches Some(v) ==> v == digits_val(spec_trim(s@)),
{
    let t = trim_str(s);
    parse_u64(t.as_str())
}

} // verus!
