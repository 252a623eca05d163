//! Text utilities over the ASCII content of the metric source files:
//! whitespace trimming, equality, lexicographic order, substring search.

use vstd::prelude::*;

verus! {

/// Whether `c` is one of the whitespace characters that appear in the
/// virtual files this sampler reads (space, tab, line feed, carriage return).
pub open spec fn is_space(c: char) -> bool {
    c == ' ' || c == '\t' || c == '\n' || c == '\r'
}

/// `s` with leading whitespace removed.
pub open spec fn trim_start_rec(s: Seq<char>) -> Seq<char>
    decreases s.len(),
{
    if s.len() > 0 && is_space(s[0]) {
        trim_start_rec(s.drop_first())
    } else {
        s
    }
}

/// `s` with trailing whitespace removed.
pub open spec fn trim_end_rec(s: Seq<char>) -> Seq<char>
    decreases s.len(),
{
    if s.len() > 0 && is_space(s.last()) {
        trim_end_rec(s.drop_last())
    } else {
        s
    }
}

/// `s` with leading and trailing whitespace removed.
pub open spec fn spec_trim(s: Seq<char>) -> Seq<char> {
    trim_end_rec(trim_start_rec(s))
}

/// Executable test for the whitespace characters of `is_space`.
pub fn char_is_space(c: char) -> (r: bool)
    ensures
        r == is_space(c),
{
    c == ' ' || c == '\t' || c == '\n' || c == '\r'
}

/// Returns `s` with leading and trailing whitespace removed.
pub fn trim_str(s: &str) -> (r: String)
    ensures
        r@ == spec_trim(s@),
{
    let len = s.unicode_len();
    proof {
        assert(s@.skip(0) =~= s@);
    }
    let mut i: usize = 0;
    while i < len
        invariant_except_break
            0 <= i <= len,
            len == s@.len(),
            trim_start_rec(s@) == trim_start_rec(s@.skip(i as int)),
        ensures
            0 <= i <= len,
            len == s@.len(),
            trim_start_rec(s@) == s@.skip(i as int),
        decreases len - i,
    {
        let c = s.get_char(i);
        if char_is_space(c) {
            proof {
                assert(s@.skip(i as int).drop_first() =~= s@.skip(i + 1));
            }
            i = i + 1;
        } else {
            proof {
                assert(trim_start_rec(s@.skip(i as int)) == s@.skip(i as int));
            }
            break ;
        }
    }
    proof {
        if i == len {
            assert(s@.skip(i as int).len() == 0);
        }
    }
    let mut j: usize = len;
    while j > i
        invariant_except_break
            i <= j <= len,
            len == s@.len(),
            trim_start_rec(s@) == s@.skip(i as int),
            trim_end_rec(s@.subrange(i as int, len as int)) == trim_end_rec(
                s@.subrange(i as int, j as int),
            ),
        ensures
            i <= j <= len,
            len == s@.len(),
            trim_end_rec(s@.subrange(i as int, len as int)) == s@.subrange(i as int, j as int),
        decreases j,
    {
        let c = s.get_char(j - 1);
        if char_is_space(c) {
            proof {
                assert(s@.subrange(i as int, j as int).drop_last() =~= s@.subrange(
                    i as int,
                    j - 1,
                ));
            }
            j = j - 1;
        } else {
            proof {
                assert(s@.subrange(i as int, j as int).last() == s@[j - 1]);
                assert(trim_end_rec(s@.subrange(i as int, j as int)) == s@.subrange(
                    i as int,
                    j as int,
                ));
            }
            break ;
        }
    }
    proof {
        assert(s@.skip(i as int) =~= s@.subrange(i as int, len as int));
        if j == i {
            assert(s@.subrange(i as int, j as int).len() == 0);
        }
        assert(spec_trim(s@) == s@.subrange(i as int, j as int));
    }
    let sub = s.substring_char(i, j);
    String::from_str(sub)
}

/// Whether two string slices hold the same characters.
pub fn str_eq(a: &str, b: &str) -> (r: bool)
    ensures
        r == (a@ == b@),
{
    let sa = String::from_str(a);
    let sb = String::from_str(b);
    sa == sb
}

/// Lexicographic order on character sequences, by code point, with a
/// prefix ordered before its extensions.
pub open spec fn lex_le(a: Seq<char>, b: Seq<char>) -> bool
    decreases a.len(),
{
    if a.len() == 0 {
        true
    } else if b.len() == 0 {
        false
    } else if a[0] != b[0] {
        a[0] < b[0]
    } else {
        lex_le(a.drop_first(), b.drop_first())
    }
}

/// `lex_le` is reflexive.
pub proof fn lemma_lex_le_refl(a: Seq<char>)
    ensures
        lex_le(a, a),
    decreases a.len(),
{
    if a.len() > 0 {
        lemma_lex_le_refl(a.drop_first());
    }
}

/// `lex_le` is total: of any two sequences, one is ordered at or before the other.
pub proof fn lemma_lex_le_total(a: Seq<char>, b: Seq<char>)
    ensures
        lex_le(a, b) || lex_le(b, a),
    decreases a.len(),
{
    if a.len() > 0 && b.len() > 0 {
        if a[0] == b[0] {
            lemma_lex_le_total(a.drop_first(), b.drop_first());
        }
    }
}

/// `lex_le` is transitive.
pub proof fn lemma_lex_le_trans(a: Seq<char>, b: Seq<char>, c: Seq<char>)
    requires
        lex_le(a, b),
        lex_le(b, c),
    ensures
        lex_le(a, c),
    decreases a.len(),
{
    if a.len() > 0 && b.len() > 0 && c.len() > 0 && a[0] == b[0] && b[0] == c[0] {
        lemma_lex_le_trans(a.drop_first(), b.drop_first(), c.drop_first());
    }
}

/// Whether `a` is lexicographically at or before `b`.
pub fn str_lex_le(a: &str, b: &str) -> (r: bool)
    ensures
        r == lex_le(a@, b@),
{
    let alen = a.unicode_len();
    let blen = b.unicode_len();
    proof {
        assert(a@.skip(0) =~= a@);
        assert(b@.skip(0) =~= b@);
    }
    let mut i: usize = 0;
    loop
        invariant
            0 <= i <= alen,
            0 <= i <= blen,
            alen == a@.len(),
            blen == b@.len(),
            lex_le(a@, b@) == lex_le(a@.skip(i as int), b@.skip(i as int)),
        decreases alen - i,
    {
        if i >= alen {
            assert(a@.skip(i as int).len() == 0);
            return true;
        }
        if i >= blen {
            assert(b@.skip(i as int).len() == 0);
            return false;
        }
        let ca = a.get_char(i);
        let cb = b.get_char(i);
        if ca != cb {
            assert(a@.skip(i as int)[0] == ca && b@.skip(i as int)[0] == cb);
            return ca < cb;
        }
        proof {
            assert(a@.skip(i as int).drop_first() =~= a@.skip(i + 1));
            assert(b@.skip(i as int).drop_first() =~= b@.skip(i + 1));
        }
        i = i + 1;
    }
}

/// Whether `needle` occurs as a contiguous subsequence of `hay`.
pub open spec fn contains_seq(hay: Seq<char>, needle: Seq<char>) -> bool {
    exists|k: int|
        0 <= k && k + needle.len() <= hay.len() && #[trigger] hay.subrange(k, k + needle.len())
            == needle
}

/// Whether `needle` occurs as a substring of `hay`.
pub fn str_contains(hay: &str, needle: &str) -> (r: bool)
    ensures
        r == contains_seq(hay@, needle@),
{
    let hlen = hay.unicode_len();
    let nlen = needle.unicode_len();
    if nlen > hlen {
        return false;
    }
    if nlen == 0 {
        proof {
            assert(hay@.subrange(0, 0 + needle@.len() as int) =~= needle@);
            assert(contains_seq(hay@, needle@));
        }
        return true;
    }
    let mut k: usize = 0;
    while k <= hlen - nlen
        invariant
            0 <= k <= hlen - nlen + 1,
            1 <= nlen <= hlen,
            hlen == hay@.len(),
            nlen == needle@.len(),
            forall|m: int|
                0 <= m < k ==> #[trigger] hay@.subrange(m, m + needle@.len()) != needle@,
        decreases hlen - nlen - k + 1,
    {
        let mut j: usize = 0;
        let mut mismatch = false;
        while j < nlen
            invariant_except_break
                0 <= j <= nlen,
                k + nlen <= hlen,
                hlen == hay@.len(),
                nlen == needle@.len(),
                !mismatch,
                forall|m: int| 0 <= m < j ==> hay@[k + m] == needle@[m],
            ensures
                0 <= j <= nlen,
                mismatch ==> hay@.subrange(k as int, k + needle@.len()) != needle@,
                !mismatch ==> j == nlen && (forall|m: int|
                    0 <= m < j ==> hay@[k + m] == needle@[m]),
            decreases nlen - j,
        {
            let ch = hay.get_char(k + j);
            let cn = needle.get_char(j);
            if ch != cn {
                proof {
                    assert(hay@.subrange(k as int, k + needle@.len())[j as int] == hay@[k + j]);
                }
                mismatch = true;
                break ;
            }
            j = j + 1;
        }
        if !mismatch {
            proof {
                assert(hay@.subrange(k as int, k + needle@.len()) =~= needle@);
                assert(contains_seq(hay@, needle@));
            }
            return true;
        }
        k = k + 1;
    }
    proof {
        assert(forall|m: int|
            0 <= m && m + needle@.len() <= hay@.len() ==> #[trigger] hay@.subrange(
                m,
                m + needle@.len(),
            ) != needle@);
    }
    false
}

} // verus!
