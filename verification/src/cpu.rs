//! The aggregate CPU counter line: tokenizing, parsing the counters, and
//! deriving a utilization percentage from two consecutive samples.
//!
//! The counter source exposes one line beginning with a label token followed
//! by whitespace-separated decimal counters; field index 3 of the counters is
//! the idle counter. Utilization over a tick is the share of elapsed counter
//! ticks that were not idle, rounded to a whole percentage.

use crate::num::{all_digits, digits_val, parse_u64};
use crate::text::{char_is_space, is_space};
use vstd::arithmetic::div_mod::{lemma_div_pos_is_pos, lemma_multiply_divide_lt};
use vstd::prelude::*;

verus! {

/// Index of the first whitespace character of `s`, or `s.len()` if none.
pub open spec fn token_end(s: Seq<char>) -> int
    decreases s.len(),
{
    if s.len() == 0 {
        0
    } else if is_space(s[0]) {
        0
    } else {
        1 + token_end(s.drop_first())
    }
}

proof fn lemma_token_end_bounds(s: Seq<char>)
    ensures
        0 <= token_end(s) <= s.len(),
    decreases s.len(),
{
    if s.len() > 0 && !is_space(s[0]) {
        lemma_token_end_bounds(s.drop_first());
    }
}

/// `token_end(s)` is the one position `j` with no whitespace before it and
/// whitespace (or the end) at it.
proof fn lemma_token_end_at(s: Seq<char>, j: int)
    requires
        0 <= j <= s.len(),
        forall|m: int| 0 <= m < j ==> !is_space(#[trigger] s[m]),
        j < s.len() ==> is_space(s[j]),
    ensures
        token_end(s) == j,
    decreases s.len(),
{
    if s.len() > 0 && !is_space(s[0]) {
        let t = s.drop_first();
        assert(forall|m: int| 0 <= m < j - 1 ==> !is_space(#[trigger] t[m]));
        lemma_token_end_at(t, j - 1);
    }
}

/// `s` split on whitespace: its maximal nonempty runs of non-whitespace
/// characters, in order.
pub open spec fn split_ws(s: Seq<char>) -> Seq<Seq<char>>
    decreases s.len(),
    via split_ws_decreases
{
    if s.len() == 0 {
        Seq::empty()
    } else if is_space(s[0]) {
        split_ws(s.drop_first())
    } else {
        seq![s.subrange(0, token_end(s))] + split_ws(s.skip(token_end(s)))
    }
}

#[via_fn]
proof fn split_ws_decreases(s: Seq<char>) {
    if s.len() > 0 && !is_space(s[0]) {
        lemma_token_end_bounds(s.drop_first());
    }
}

/// The views of a sequence of strings.
pub open spec fn views(ts: Seq<String>) -> Seq<Seq<char>> {
    ts.map_values(|t: String| t@)
}

/// Splits `s` on whitespace into its tokens.
pub fn tokenize(s: &str) -> (toks: Vec<String>)
    ensures
        views(toks@) == split_ws(s@),
{
    let len = s.unicode_len();
    let mut toks: Vec<String> = Vec::new();
    proof {
        assert(s@.skip(0) =~= s@);
        assert(views(toks@) =~= Seq::<Seq<char>>::empty());
    }
    let mut i: usize = 0;
    while i < len
        invariant
            0 <= i <= len,
            len == s@.len(),
            split_ws(s@) == views(toks@) + split_ws(s@.skip(i as int)),
        decreases len - i,
    {
        let c = s.get_char(i);
        if char_is_space(c) {
            proof {
                assert(s@.skip(i as int).drop_first() =~= s@.skip(i + 1));
            }
            i = i + 1;
        } else {
            let start = i;
            let mut j: usize = i + 1;
            while j < len
                invariant_except_break
                    i < j <= len,
                    len == s@.len(),
                    forall|m: int| i <= m < j ==> !is_space(#[trigger] s@[m]),
                ensures
                    i < j <= len,
                    len == s@.len(),
                    forall|m: int| i <= m < j ==> !is_space(#[trigger] s@[m]),
                    j < len ==> is_space(s@[j as int]),
                decreases len - j,
            {
                let c2 = s.get_char(j);
                if char_is_space(c2) {
                    break ;
                }
                j = j + 1;
            }
            proof {
                let rem = s@.skip(i as int);
                assert(forall|m: int| 0 <= m < j - i ==> !is_space(#[trigger] rem[m]));
                if j < len {
                    assert(is_space(rem[j - i]));
                }
                lemma_token_end_at(rem, j - i);
                assert(rem.subrange(0, j - i) =~= s@.subrange(i as int, j as int));
                assert(rem.skip(j - i) =~= s@.skip(j as int));
            }
            let tok = s.substring_char(start, j);
            let ts = String::from_str(tok);
            let ghost toks0 = toks@;
            toks.push(ts);
            proof {
                assert(views(toks@) =~= views(toks0) + seq![s@.subrange(i as int, j as int)]);
                assert(views(toks@) + split_ws(s@.skip(j as int)) =~= views(toks0) + split_ws(
                    s@.skip(i as int),
                ));
            }
            i = j;
        }
    }
    proof {
        assert(s@.skip(len as int).len() == 0);
        assert(views(toks@) + split_ws(s@.skip(len as int)) =~= views(toks@));
    }
    toks
}

/// Index of the first line feed of `s`, or `s.len()` if none.
pub open spec fn line_end(s: Seq<char>) -> int
    decreases s.len(),
{
    if s.len() == 0 {
        0
    } else if s[0] == '\n' {
        0
    } else {
        1 + line_end(s.drop_first())
    }
}

proof fn lemma_line_end_bounds(s: Seq<char>)
    ensures
        0 <= line_end(s) <= s.len(),
    decreases s.len(),
{
    if s.len() > 0 && s[0] != '\n' {
        lemma_line_end_bounds(s.drop_first());
    }
}

/// `line_end(s)` is the one position `j` with no line feed before it and a
/// line feed (or the end) at it.
proof fn lemma_line_end_at(s: Seq<char>, j: int)
    requires
        0 <= j <= s.len(),
        forall|m: int| 0 <= m < j ==> #[trigger] s[m] != '\n',
        j < s.len() ==> s[j] == '\n',
    ensures
        line_end(s) == j,
    decreases s.len(),
{
    if s.len() > 0 && s[0] != '\n' {
        let t = s.drop_first();
        assert(forall|m: int| 0 <= m < j - 1 ==> #[trigger] t[m] != '\n');
        lemma_line_end_at(t, j - 1);
    }
}

/// Everything before the first line feed of `s` (all of `s` if none).
pub open spec fn spec_first_line(s: Seq<char>) -> Seq<char> {
    s.subrange(0, line_end(s))
}

/// Returns the first line of `s`, without its line feed.
pub fn first_line(s: &str) -> (r: String)
    ensures
        r@ == spec_first_line(s@),
{
    let len = s.unicode_len();
    let mut j: usize = 0;
    while j < len
        invariant_except_break
            0 <= j <= len,
            len == s@.len(),
            forall|m: int| 0 <= m < j ==> #[trigger] s@[m] != '\n',
        ensures
            0 <= j <= len,
            len == s@.len(),
            forall|m: int| 0 <= m < j ==> #[trigger] s@[m] != '\n',
            j < len ==> s@[j as int] == '\n',
        decreases len - j,
    {
        let c = s.get_char(j);
        if c == '\n' {
            break ;
        }
        j = j + 1;
    }
    proof {
        lemma_line_end_at(s@, j as int);
    }
    let sub = s.substring_char(0, j);
    String::from_str(sub)
}

/// The values of a sequence of decimal counter tokens, or `None` if any
/// token is empty, holds a non-digit, or overflows a 64-bit counter.
pub open spec fn parse_tokens(toks: Seq<Seq<char>>) -> Option<Seq<u64>>
    decreases toks.len(),
{
    if toks.len() == 0 {
        Some(Seq::empty())
    } else {
        match parse_tokens(toks.drop_last()) {
            Some(rest) => {
                let t = toks.last();
                if t.len() > 0 && all_digits(t) && digits_val(t) <= u64::MAX {
                    Some(rest.push(digits_val(t) as u64))
                } else {
                    None
                }
            },
            None => None,
        }
    }
}

/// Once a prefix of the tokens fails to parse, the whole sequence fails.
proof fn lemma_parse_tokens_prefix_none(p: Seq<Seq<char>>, t: Seq<Seq<char>>)
    requires
        p.len() <= t.len(),
        p == t.subrange(0, p.len() as int),
        parse_tokens(p) is None,
    ensures
        parse_tokens(t) is None,
    decreases t.len(),
{
    if t.len() == p.len() {
        assert(t.subrange(0, p.len() as int) =~= t);
    } else {
        assert(p == t.drop_last().subrange(0, p.len() as int)) by {
            assert(t.drop_last().subrange(0, p.len() as int) =~= t.subrange(0, p.len() as int));
        }
        lemma_parse_tokens_prefix_none(p, t.drop_last());
    }
}

/// The counter fields of a CPU stats text: the tokens of its first line
/// after the leading label token, each parsed as a 64-bit counter. `None`
/// if the first line has no token at all or a counter does not parse.
pub open spec fn spec_cpu_fields(s: Seq<char>) -> Option<Seq<u64>> {
    let toks = split_ws(spec_first_line(s));
    if toks.len() == 0 {
        None
    } else {
        parse_tokens(toks.drop_first())
    }
}

/// Parses the counter fields of a CPU stats text: first line, whitespace
/// tokens, leading label skipped, each remaining token a decimal counter.
pub fn parse_cpu_fields(s: &str) -> (r: Option<Vec<u64>>)
    ensures
        r matches Some(v) ==> spec_cpu_fields(s@) == Some(v@),
        r is None ==> spec_cpu_fields(s@) is None,
{
    let line = first_line(s);
    let toks = tokenize(line.as_str());
    if toks.len() == 0 {
        return None;
    }
    let mut fields: Vec<u64> = Vec::new();
    let mut k: usize = 1;
    proof {
        assert(views(toks@).subrange(1, 1) =~= Seq::<Seq<char>>::empty());
    }
    while k < toks.len()
        invariant
            1 <= k <= toks@.len(),
            views(toks@) == split_ws(spec_first_line(s@)),
            parse_tokens(views(toks@).subrange(1, k as int)) == Some(fields@),
        decreases toks@.len() - k,
    {
        let tok: &String = &toks[k];
        let r = parse_u64(tok.as_str());
        proof {
            let vs = views(toks@);
            assert(vs.subrange(1, k + 1).drop_last() =~= vs.subrange(1, k as int));
            assert(vs.subrange(1, k + 1).last() == vs[k as int]);
            assert(vs[k as int] == toks@[k as int]@);
        }
        match r {
            Some(v) => {
                fields.push(v);
                k = k + 1;
            },
            None => {
                proof {
                    let vs = views(toks@);
                    assert(parse_tokens(vs.subrange(1, k + 1)) is None);
                    assert(vs.subrange(1, k + 1) == vs.drop_first().subrange(0, k as int)) by {
                        assert(vs.drop_first().subrange(0, k as int) =~= vs.subrange(1, k + 1));
                    }
                    lemma_parse_tokens_prefix_none(vs.subrange(1, k + 1), vs.drop_first());
                }
                return None;
            },
        }
    }
    proof {
        let vs = views(toks@);
        assert(vs.subrange(1, vs.len() as int) =~= vs.drop_first());
    }
    Some(fields)
}

/// The sum of a sequence of counters.
pub open spec fn seq_sum(s: Seq<u64>) -> int
    decreases s.len(),
{
    if s.len() == 0 {
        0
    } else {
        seq_sum(s.drop_last()) + s.last()
    }
}

proof fn lemma_seq_sum_nonneg(s: Seq<u64>)
    ensures
        seq_sum(s) >= 0,
    decreases s.len(),
{
    if s.len() > 0 {
        lemma_seq_sum_nonneg(s.drop_last());
    }
}

proof fn lemma_seq_sum_prefix_le(s: Seq<u64>, i: int)
    requires
        0 <= i <= s.len(),
    ensures
        0 <= seq_sum(s.subrange(0, i)) <= seq_sum(s),
    decreases s.len() - i,
{
    lemma_seq_sum_nonneg(s.subrange(0, i));
    if i == s.len() {
        assert(s.subrange(0, i) =~= s);
    } else {
        assert(s.subrange(0, i + 1).drop_last() =~= s.subrange(0, i));
        lemma_seq_sum_prefix_le(s, i + 1);
    }
}

/// Sums the counter fields.
pub fn sum_fields(v: &Vec<u64>) -> (s: u64)
    requires
        seq_sum(v@) <= u64::MAX,
    ensures
        s == seq_sum(v@),
{
    let mut acc: u64 = 0;
    let mut i: usize = 0;
    proof {
        assert(v@.subrange(0, 0) =~= Seq::<u64>::empty());
    }
    while i < v.len()
        invariant
            0 <= i <= v@.len(),
            seq_sum(v@) <= u64::MAX,
            acc == seq_sum(v@.subrange(0, i as int)),
        decreases v@.len() - i,
    {
        proof {
            assert(v@.subrange(0, i + 1).drop_last() =~= v@.subrange(0, i as int));
            assert(v@.subrange(0, i + 1).last() == v@[i as int]);
            lemma_seq_sum_prefix_le(v@, i + 1);
        }
        acc = acc + v[i];
        i = i + 1;
    }
    proof {
        assert(v@.subrange(0, v@.len() as int) =~= v@);
    }
    acc
}

/// The utilization percentage derived from the previous and current counter
/// samples: the share of elapsed counter ticks not spent idle, rounded half
/// up to a whole percent. A tick over which no counter ticks elapsed (or
/// over which the counters went backwards) reads as 0%, and the result is
/// clamped to [0, 100] even if the idle counter moved inconsistently.
pub open spec fn spec_utilization(prev: Seq<u64>, cur: Seq<u64>) -> int
    recommends
        prev.len() > 3,
        cur.len() > 3,
{
    let total = seq_sum(cur) - seq_sum(prev);
    let idle = cur[3] - prev[3];
    if total <= 0 {
        0
    } else {
        let busy = if idle < 0 {
            total
        } else if idle > total {
            0
        } else {
            total - idle
        };
        (100 * busy + total / 2) / total
    }
}

/// The utilization of any pair of samples lies in [0, 100], and a tick with
/// no elapsed counter ticks reads as exactly 0%.
pub proof fn lemma_utilization_in_range(prev: Seq<u64>, cur: Seq<u64>)
    requires
        prev.len() > 3,
        cur.len() > 3,
    ensures
        0 <= spec_utilization(prev, cur) <= 100,
        seq_sum(cur) == seq_sum(prev) ==> spec_utilization(prev, cur) == 0,
{
    let total = seq_sum(cur) - seq_sum(prev);
    let idle = cur[3] - prev[3];
    if total > 0 {
        let busy = if idle < 0 {
            total
        } else if idle > total {
            0
        } else {
            total - idle
        };
        let a = 100 * busy + total / 2;
        lemma_div_pos_is_pos(a, total);
        assert(a < 101 * total);
        lemma_multiply_divide_lt(a, total, 101);
    }
}

/// Derives the utilization percentage from two counter samples.
pub fn cpu_utilization(prev: &Vec<u64>, cur: &Vec<u64>) -> (u: u64)
    requires
        prev@.len() > 3,
        cur@.len() > 3,
        seq_sum(prev@) <= u64::MAX,
        seq_sum(cur@) <= u64::MAX,
    ensures
        u == spec_utilization(prev@, cur@),
        u <= 100,
{
    proof {
        lemma_utilization_in_range(prev@, cur@);
    }
    let ps = sum_fields(prev);
    let cs = sum_fields(cur);
    if cs <= ps {
        return 0;
    }
    let total = cs - ps;
    let pi = prev[3];
    let ci = cur[3];
    let busy: u64 = if ci < pi {
        total
    } else if ci - pi > total {
        0
    } else {
        total - (ci - pi)
    };
    let wide: u128 = (100 as u128) * (busy as u128) + (total / 2) as u128;
    let r: u128 = wide / (total as u128);
    proof {
        assert(r == spec_utilization(prev@, cur@));
    }
    r as u64
}

/// Derives the utilization percentage after checking what the derivation
/// needs: at least four fields in each sample and sums that fit a 64-bit
/// counter. Returns `None` exactly when a check fails.
pub fn cpu_utilization_checked(prev: &Vec<u64>, cur: &Vec<u64>) -> (r: Option<u64>)
    ensures
        r is Some <==> (prev@.len() > 3 && cur@.len() > 3 && seq_sum(prev@) <= u64::MAX && seq_sum(
            cur@,
        ) <= u64::MAX),
        r matches Some(u) ==> u == spec_utilization(prev@, cur@) && u <= 100,
{
    if prev.len() <= 3 || cur.len() <= 3 {
        return None;
    }
    match (sum_fields_checked(prev), sum_fields_checked(cur)) {
        (Some(_), Some(_)) => Some(cpu_utilization(prev, cur)),
        _ => None,
    }
}

/// Sums the counter fields, reporting overflow of a 64-bit counter as `None`.
pub fn sum_fields_checked(v: &Vec<u64>) -> (r: Option<u64>)
    ensures
        r is Some <==> seq_sum(v@) <= u64::MAX,
        r matches Some(s) ==> s == seq_sum(v@),
{
    let mut acc: u128 = 0;
    let mut i: usize = 0;
    proof {
        assert(v@.subrange(0, 0) =~= Seq::<u64>::empty());
    }
    while i < v.len()
        invariant
            0 <= i <= v@.len(),
            acc == seq_sum(v@.subrange(0, i as int)),
            acc <= i * (u64::MAX as int),
        decreases v@.len() - i,
    {
        proof {
            assert(v@.subrange(0, i + 1).drop_last() =~= v@.subrange(0, i as int));
            assert(v@.subrange(0, i + 1).last() == v@[i as int]);
            assert((i + 1) * (u64::MAX as int) == i * (u64::MAX as int) + u64::MAX) by (
            nonlinear_arith);
            assert(i * (u64::MAX as int) < u128::MAX - u64::MAX) by (nonlinear_arith)
                requires
                    i < v@.len(),
                    v@.len() <= usize::MAX,
            ;
        }
        acc = acc + v[i] as u128;
        i = i + 1;
    }
    proof {
        assert(v@.subrange(0, v@.len() as int) =~= v@);
    }
    if acc <= u64::MAX as u128 {
        Some(acc as u64)
    } else {
        None
    }
}

} // verus!
