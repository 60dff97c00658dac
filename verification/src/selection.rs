//! Parsing of the interactive selection prompt ("1 3", "2,4", "1-3", "all").
use vstd::prelude::*;
use std::collections::HashSet;

use crate::dedup::{dedup_first, lemma_dedup_first_contains};
use crate::text::{
    char_is_whitespace, chars_of, is_whitespace, parse_usize, parse_usize_chars, str_to_lowercase,
    string_of, to_lowercase, trim_chars, trim_ws,
};

verus! {

broadcast use vstd::std_specs::hash::group_hash_axioms;

// ---------------------------------------------------------------------------
// Specification
// ---------------------------------------------------------------------------

/// `s` with every comma turned into a space.
pub open spec fn commas_to_spaces(s: Seq<char>) -> Seq<char> {
    s.map_values(|c: char| if c == ',' { ' ' } else { c })
}

/// One step of splitting on whitespace: the finished tokens and the token
/// being read, after reading `c`.
pub open spec fn split_step(acc: (Seq<Seq<char>>, Seq<char>), c: char) -> (Seq<Seq<char>>, Seq<char>) {
    if char_is_whitespace(c) {
        if acc.1.len() > 0 {
            (acc.0.push(acc.1), Seq::empty())
        } else {
            acc
        }
    } else {
        (acc.0, acc.1.push(c))
    }
}

/// The state of splitting `s` on whitespace after reading all of it.
pub open spec fn split_state(s: Seq<char>) -> (Seq<Seq<char>>, Seq<char>)
    decreases s.len(),
{
    if s.len() == 0 {
        (Seq::empty(), Seq::empty())
    } else {
        split_step(split_state(s.drop_last()), s.last())
    }
}

/// The maximal runs of non-whitespace characters of `s` (`str::split_whitespace`).
pub open spec fn ws_tokens(s: Seq<char>) -> Seq<Seq<char>> {
    let st = split_state(s);
    if st.1.len() > 0 {
        st.0.push(st.1)
    } else {
        st.0
    }
}

/// Whether `k` is the position of the first `-` in `tok`.
pub open spec fn is_first_dash(tok: Seq<char>, k: int) -> bool {
    &&& 0 <= k < tok.len()
    &&& tok[k] == '-'
    &&& forall|j: int| 0 <= j < k ==> tok[j] != '-'
}

/// The 0-based indices of the 1-based numbers `a..=b` that lie within `1..=count`, ascending.
pub open spec fn range_indices(a: nat, b: nat, count: nat) -> Seq<usize> {
    let lo: nat = if a < 1 { 1 } else { a };
    let hi: nat = if b > count { count } else { b };
    if lo <= hi {
        Seq::new((hi - lo + 1) as nat, |k: int| (lo + k - 1) as usize)
    } else {
        Seq::empty()
    }
}

/// The indices one token selects: a range `lo-hi` (split at the first `-`,
/// both sides parsed as numbers), or a single number; out-of-range numbers
/// and unparsable tokens select nothing.
pub open spec fn token_indices(tok: Seq<char>, count: nat) -> Seq<usize> {
    if exists|k: int| is_first_dash(tok, k) {
        let k = choose|k: int| is_first_dash(tok, k);
        let lo = parse_usize(trim_ws(tok.take(k)));
        let hi = parse_usize(trim_ws(tok.skip(k + 1)));
        if lo is Some && hi is Some {
            range_indices(lo->0 as nat, hi->0 as nat, count)
        } else {
            Seq::empty()
        }
    } else {
        match parse_usize(tok) {
            Some(n) => if 1 <= n <= count {
                seq![(n - 1) as usize]
            } else {
                Seq::empty()
            },
            None => Seq::empty(),
        }
    }
}

/// The indices selected by each token, concatenated in token order.
pub open spec fn tokens_indices(toks: Seq<Seq<char>>, count: nat) -> Seq<usize>
    decreases toks.len(),
{
    if toks.len() == 0 {
        Seq::empty()
    } else {
        tokens_indices(toks.drop_last(), count) + token_indices(toks.last(), count)
    }
}

/// The indices `0..count`.
pub open spec fn all_indices(count: nat) -> Seq<usize> {
    Seq::new(count, |i: int| i as usize)
}

/// What a selection string picks out of `count` numbered items: every item for
/// `a` or `all` (after trimming and lowercasing); otherwise the items named by
/// the comma- or whitespace-separated numbers and ranges, each once, in the
/// order first named.
pub open spec fn selection(input: Seq<char>, count: nat) -> Seq<usize> {
    let t = str_to_lowercase(trim_ws(input));
    if t == seq!['a'] || t == seq!['a', 'l', 'l'] {
        all_indices(count)
    } else {
        dedup_first(tokens_indices(ws_tokens(commas_to_spaces(t)), count))
    }
}

// ---------------------------------------------------------------------------
// Lemmas
// ---------------------------------------------------------------------------

proof fn lemma_indices_below(toks: Seq<Seq<char>>, count: nat)
    ensures
        forall|i: int| 0 <= i < tokens_indices(toks, count).len() ==> #[trigger] tokens_indices(toks, count)[i] < count,
    decreases toks.len(),
{
    if toks.len() > 0 {
        lemma_indices_below(toks.drop_last(), count);
        let p = tokens_indices(toks.drop_last(), count);
        let q = token_indices(toks.last(), count);
        assert forall|i: int| 0 <= i < q.len() implies #[trigger] q[i] < count by {}
        assert forall|i: int| 0 <= i < (p + q).len() implies #[trigger] (p + q)[i] < count by {
            if i < p.len() {
                assert((p + q)[i] == p[i]);
            } else {
                assert((p + q)[i] == q[i - p.len()]);
            }
        }
    }
}

/// Every selected index is below `count`.
pub proof fn lemma_selection_in_range(input: Seq<char>, count: nat)
    ensures
        forall|i: int| 0 <= i < selection(input, count).len() ==> #[trigger] selection(input, count)[i] < count,
{
    let t = str_to_lowercase(trim_ws(input));
    if !(t == seq!['a'] || t == seq!['a', 'l', 'l']) {
        let raw = tokens_indices(ws_tokens(commas_to_spaces(t)), count);
        lemma_indices_below(ws_tokens(commas_to_spaces(t)), count);
        lemma_dedup_first_contains(raw);
        assert forall|i: int| 0 <= i < dedup_first(raw).len() implies #[trigger] dedup_first(raw)[i] < count by {
            let x = dedup_first(raw)[i];
            assert(dedup_first(raw).contains(x));
            assert(raw.contains(x));
            let k = choose|k: int| 0 <= k < raw.len() && raw[k] == x;
            assert(raw[k] < count);
        }
    }
}

/// No index is selected twice.
pub proof fn lemma_selection_no_duplicates(input: Seq<char>, count: usize)
    ensures
        selection(input, count as nat).no_duplicates(),
{
    let t = str_to_lowercase(trim_ws(input));
    if !(t == seq!['a'] || t == seq!['a', 'l', 'l']) {
        lemma_dedup_first_contains(tokens_indices(ws_tokens(commas_to_spaces(t)), count as nat));
    } else {
        let s = all_indices(count as nat);
        assert forall|i: int, j: int| 0 <= i < s.len() && 0 <= j < s.len() && i != j implies s[i] != s[j] by {
            assert(s[i] == i as usize && s[j] == j as usize);
        }
    }
}

/// `a` and `all`, in any case and with surrounding whitespace, select every item.
pub proof fn lemma_selection_all(input: Seq<char>, count: nat)
    requires
        str_to_lowercase(trim_ws(input)) == seq!['a'] || str_to_lowercase(trim_ws(input)) == seq!['a', 'l', 'l'],
    ensures
        selection(input, count) == all_indices(count),
{
}

// ---------------------------------------------------------------------------
// Implementation
// ---------------------------------------------------------------------------

fn range_indices_exec(a: usize, b: usize, count: usize) -> (r: Vec<usize>)
    ensures
        r@ == range_indices(a as nat, b as nat, count as nat),
{
    let lo: usize = if a < 1 { 1 } else { a };
    let hi: usize = if b > count { count } else { b };
    let mut out: Vec<usize> = Vec::new();
    if lo <= hi {
        let n = hi - lo + 1;
        let mut k: usize = 0;
        while k < n
            invariant
                1 <= lo <= hi <= count,
                n == hi - lo + 1,
                k <= n,
                out@ =~= Seq::new(k as nat, |j: int| (lo + j - 1) as usize),
            decreases n - k,
        {
            out.push(lo + k - 1);
            k += 1;
        }
    }
    out
}

fn token_indices_exec(tok: &Vec<char>, count: usize) -> (r: Vec<usize>)
    ensures
        r@ == token_indices(tok@, count as nat),
{
    let mut k: usize = 0;
    while k < tok.len() && tok[k] != '-'
        invariant
            k <= tok.len(),
            forall|j: int| 0 <= j < k ==> tok@[j] != '-',
        decreases tok.len() - k,
    {
        k += 1;
    }
    if k < tok.len() {
        assert(is_first_dash(tok@, k as int));
        let ghost c = choose|c: int| is_first_dash(tok@, c);
        assert(c == k) by {
            if c < k {
                assert(tok@[c] != '-');
            }
            if k < c {
                assert(tok@[k as int] != '-');
            }
        }
        let mut lo_chars: Vec<char> = Vec::new();
        let mut hi_chars: Vec<char> = Vec::new();
        let mut i: usize = 0;
        while i < tok.len()
            invariant
                k < tok.len(),
                i <= tok.len(),
                i <= k ==> lo_chars@ == tok@.take(i as int) && hi_chars@.len() == 0,
                i > k ==> lo_chars@ == tok@.take(k as int) && hi_chars@ == tok@.subrange(k + 1, i as int),
            decreases tok.len() - i,
        {
            if i < k {
                lo_chars.push(tok[i]);
                assert(tok@.take(i + 1) =~= tok@.take(i as int).push(tok@[i as int]));
            } else if i > k {
                hi_chars.push(tok[i]);
                assert(tok@.subrange(k + 1, i + 1) =~= tok@.subrange(k + 1, i as int).push(tok@[i as int]));
            } else {
                assert(tok@.subrange(k + 1, k + 1) =~= Seq::<char>::empty());
            }
            i += 1;
        }
        assert(hi_chars@ =~= tok@.skip(k + 1));
        let lo = parse_usize_chars(&trim_chars(&lo_chars));
        let hi = parse_usize_chars(&trim_chars(&hi_chars));
        match (lo, hi) {
            (Some(a), Some(b)) => range_indices_exec(a, b, count),
            _ => Vec::new(),
        }
    } else {
        assert(!exists|c: int| is_first_dash(tok@, c)) by {
            if exists|c: int| is_first_dash(tok@, c) {
                let c = choose|c: int| is_first_dash(tok@, c);
                assert(tok@[c] != '-');
            }
        }
        match parse_usize_chars(tok) {
            Some(n) => {
                if 1 <= n && n <= count {
                    let mut out: Vec<usize> = Vec::new();
                    out.push(n - 1);
                    out
                } else {
                    Vec::new()
                }
            },
            None => Vec::new(),
        }
    }
}

/// Keeps the first occurrence of each index, in order.
fn dedup_indices(raw: Vec<usize>) -> (r: Vec<usize>)
    ensures
        r@ == dedup_first(raw@),
{
    let mut seen: HashSet<usize> = HashSet::new();
    let mut out: Vec<usize> = Vec::new();
    let mut i: usize = 0;
    while i < raw.len()
        invariant
            i <= raw.len(),
            out@ == dedup_first(raw@.take(i as int)),
            seen@ == raw@.take(i as int).to_set(),
        decreases raw.len() - i,
    {
        let x = raw[i];
        proof {
            lemma_dedup_first_contains(raw@.take(i as int));
            assert(raw@.take(i + 1).drop_last() =~= raw@.take(i as int));
            assert(raw@.take(i + 1).last() == x);
        }
        if seen.insert(x) {
            out.push(x);
        }
        assert(seen@ =~= raw@.take(i + 1).to_set()) by {
            assert forall|y: usize| seen@.contains(y) <==> raw@.take(i + 1).contains(y) by {
                let t1 = raw@.take(i + 1);
                let t0 = raw@.take(i as int);
                if t1.contains(y) {
                    let k = choose|k: int| 0 <= k < t1.len() && t1[k] == y;
                    if k < i {
                        assert(t0[k] == y);
                    }
                }
                if t0.contains(y) {
                    let k = choose|k: int| 0 <= k < t0.len() && t0[k] == y;
                    assert(t1[k] == y);
                }
            }
        }
        i += 1;
    }
    assert(raw@.take(raw.len() as int) =~= raw@);
    out
}

/// Parses a selection string into 0-based indices of `count` numbered items.
///
/// `a` or `all` selects every index; otherwise the input holds 1-based
/// numbers (`1 3 5`, `1,3,5`) and inclusive ranges (`1-3`). Out-of-range and
/// invalid tokens are skipped, and each index appears once, in the order it
/// was first named. An empty result means nothing valid was entered.
pub fn parse_selection(input: &str, count: usize) -> (r: Vec<usize>)
    ensures
        r@ == selection(input@, count as nat),
        forall|i: int| 0 <= i < r.len() ==> #[trigger] r@[i] < count,
        r@.no_duplicates(),
{
    proof {
        lemma_selection_in_range(input@, count as nat);
        lemma_selection_no_duplicates(input@, count);
    }
    let chars = chars_of(input);
    let trimmed = string_of(&trim_chars(&chars));
    let lower = to_lowercase(trimmed.as_str());
    let t = chars_of(lower.as_str());
    let is_a = t.len() == 1 && t[0] == 'a';
    let is_all = t.len() == 3 && t[0] == 'a' && t[1] == 'l' && t[2] == 'l';
    if is_a || is_all {
        assert(t@ == seq!['a'] || t@ == seq!['a', 'l', 'l']) by {
            if is_a {
                assert(t@ =~= seq!['a']);
            } else {
                assert(t@ =~= seq!['a', 'l', 'l']);
            }
        }
        let mut out: Vec<usize> = Vec::new();
        let mut i: usize = 0;
        while i < count
            invariant
                i <= count,
                out@ =~= Seq::new(i as nat, |j: int| j as usize),
            decreases count - i,
        {
            out.push(i);
            i += 1;
        }
        return out;
    }
    assert(!(t@ == seq!['a'] || t@ == seq!['a', 'l', 'l'])) by {
        if t@ == seq!['a'] {
            assert(t@[0] == 'a');
        }
        if t@ == seq!['a', 'l', 'l'] {
            assert(t@[0] == 'a' && t@[1] == 'l' && t@[2] == 'l');
        }
    }
    let ghost s = commas_to_spaces(t@);
    let mut raw: Vec<usize> = Vec::new();
    let mut cur: Vec<char> = Vec::new();
    let mut i: usize = 0;
    while i < t.len()
        invariant
            i <= t.len(),
            s == commas_to_spaces(t@),
            raw@ == tokens_indices(split_state(s.take(i as int)).0, count as nat),
            cur@ == split_state(s.take(i as int)).1,
        decreases t.len() - i,
    {
        let c = if t[i] == ',' { ' ' } else { t[i] };
        proof {
            assert(s[i as int] == c);
            assert(s.take(i + 1).drop_last() =~= s.take(i as int));
            assert(s.take(i + 1).last() == c);
        }
        if is_whitespace(c) {
            if cur.len() > 0 {
                let ghost done = split_state(s.take(i as int)).0;
                let mut more = token_indices_exec(&cur, count);
                raw.append(&mut more);
                assert(done.push(cur@).drop_last() =~= done);
                cur = Vec::new();
            }
        } else {
            cur.push(c);
        }
        i += 1;
    }
    assert(s.take(t.len() as int) =~= s);
    if cur.len() > 0 {
        let ghost done = split_state(s).0;
        let mut more = token_indices_exec(&cur, count);
        raw.append(&mut more);
        assert(done.push(cur@).drop_last() =~= done);
    }
    dedup_indices(raw)
}

} // verus!
