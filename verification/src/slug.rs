//! Turning titles into safe filename components.
use vstd::prelude::*;

use crate::text::{char_is_alphanumeric, chars_of, is_alphanumeric, push_char};

verus! {

/// The character that `c` becomes in a slug: itself when alphanumeric or `-`, `_` otherwise.
pub open spec fn slug_char(c: char) -> char {
    if char_is_alphanumeric(c) || c == '-' {
        c
    } else {
        '_'
    }
}

/// `s` without leading underscores.
pub open spec fn strip_leading_underscores(s: Seq<char>) -> Seq<char>
    decreases s.len(),
{
    if s.len() > 0 && s[0] == '_' {
        strip_leading_underscores(s.drop_first())
    } else {
        s
    }
}

/// `s` without trailing underscores.
pub open spec fn strip_trailing_underscores(s: Seq<char>) -> Seq<char>
    decreases s.len(),
{
    if s.len() > 0 && s.last() == '_' {
        strip_trailing_underscores(s.drop_last())
    } else {
        s
    }
}

/// The slug of `s`: every character mapped by `slug_char`, then leading and
/// trailing underscores removed.
pub open spec fn slug_of(s: Seq<char>) -> Seq<char> {
    strip_trailing_underscores(strip_leading_underscores(s.map_values(|c: char| slug_char(c))))
}

/// Whether `c` may appear in a slug.
pub open spec fn is_slug_char(c: char) -> bool {
    char_is_alphanumeric(c) || c == '-' || c == '_'
}

proof fn lemma_strip_leading(s: Seq<char>, i: int)
    requires
        0 <= i <= s.len(),
        forall|k: int| 0 <= k < i ==> s[k] == '_',
        i == s.len() || s[i] != '_',
    ensures
        strip_leading_underscores(s) == s.skip(i),
    decreases i,
{
    if i == 0 {
        assert(s.skip(0) =~= s);
    } else {
        let t = s.drop_first();
        assert forall|k: int| 0 <= k < i - 1 implies t[k] == '_' by {
            assert(t[k] == s[k + 1]);
        }
        lemma_strip_leading(t, i - 1);
        assert(t.skip(i - 1) =~= s.skip(i));
    }
}

proof fn lemma_strip_trailing(s: Seq<char>, j: int)
    requires
        0 <= j <= s.len(),
        forall|k: int| j <= k < s.len() ==> s[k] == '_',
        j == 0 || s[j - 1] != '_',
    ensures
        strip_trailing_underscores(s) == s.take(j),
    decreases s.len() - j,
{
    if j == s.len() {
        assert(s.take(j) =~= s);
    } else {
        let t = s.drop_last();
        assert forall|k: int| j <= k < t.len() implies t[k] == '_' by {
            assert(t[k] == s[k]);
        }
        lemma_strip_trailing(t, j);
        assert(t.take(j) =~= s.take(j));
    }
}

/// Converts an arbitrary string into a safe filename component.
///
/// Alphanumeric characters and hyphens are kept, everything else becomes
/// `_`, and leading and trailing underscores are trimmed.
pub fn slug(s: &str) -> (r: String)
    ensures
        r@ == slug_of(s@),
        forall|k: int| 0 <= k < r@.len() ==> #[trigger] is_slug_char(r@[k]),
        r@.len() > 0 ==> r@[0] != '_' && r@.last() != '_',
        r@.len() <= s@.len(),
{
    let chars = chars_of(s);
    let ghost mapped = s@.map_values(|c: char| slug_char(c));
    let mut m: Vec<char> = Vec::new();
    let mut i: usize = 0;
    while i < chars.len()
        invariant
            chars@ == s@,
            mapped == s@.map_values(|c: char| slug_char(c)),
            i <= chars.len(),
            m@ == mapped.take(i as int),
        decreases chars.len() - i,
    {
        let c = chars[i];
        let d = if is_alphanumeric(c) || c == '-' { c } else { '_' };
        m.push(d);
        assert(mapped.take(i + 1) =~= mapped.take(i as int).push(d));
        i += 1;
    }
    assert(mapped.take(chars.len() as int) =~= mapped);
    let mut a: usize = 0;
    while a < m.len() && m[a] == '_'
        invariant
            a <= m.len(),
            forall|k: int| 0 <= k < a ==> m@[k] == '_',
        decreases m.len() - a,
    {
        a += 1;
    }
    let mut b: usize = m.len();
    while b > a && m[b - 1] == '_'
        invariant
            a <= b <= m.len(),
            forall|k: int| b <= k < m.len() ==> m@[k] == '_',
        decreases b,
    {
        b -= 1;
    }
    proof {
        lemma_strip_leading(m@, a as int);
        let t = m@.skip(a as int);
        assert forall|k: int| b - a <= k < t.len() implies t[k] == '_' by {
            assert(t[k] == m@[k + a]);
        }
        if b > a {
            assert(t[b - a - 1] == m@[b - 1]);
        }
        lemma_strip_trailing(t, b - a);
        assert(t.take(b - a) =~= m@.subrange(a as int, b as int));
    }
    let mut out = String::new();
    let mut k = a;
    while k < b
        invariant
            a <= k <= b <= m.len(),
            out@ == m@.subrange(a as int, k as int),
        decreases b - k,
    {
        push_char(&mut out, m[k]);
        assert(m@.subrange(a as int, k + 1) =~= m@.subrange(a as int, k as int).push(m@[k as int]));
        k += 1;
    }
    proof {
        assert forall|j: int| 0 <= j < out@.len() implies #[trigger] is_slug_char(out@[j]) by {
            assert(out@[j] == m@[a + j]);
            assert(m@[a + j] == mapped[a + j]);
        }
    }
    out
}

/// A slug is its own slug: slugging twice changes nothing.
pub proof fn lemma_slug_idempotent(s: Seq<char>)
    ensures
        slug_of(slug_of(s)) == slug_of(s),
{
    let t = slug_of(s);
    lemma_slug_shape(s);
    let mapped = t.map_values(|c: char| slug_char(c));
    assert(mapped =~= t) by {
        assert forall|k: int| 0 <= k < t.len() implies mapped[k] == t[k] by {
            assert(is_slug_char(t[k]));
        }
    }
    if t.len() > 0 {
        lemma_strip_leading(t, 0);
        assert(t.skip(0) =~= t);
        lemma_strip_trailing(t, t.len() as int);
        assert(t.take(t.len() as int) =~= t);
    } else {
        assert(mapped.len() == 0);
    }
}

/// Every character of a slug is alphanumeric, `-` or `_`, and a slug neither
/// starts nor ends with `_`.
pub proof fn lemma_slug_shape(s: Seq<char>)
    ensures
        forall|k: int| 0 <= k < slug_of(s).len() ==> #[trigger] is_slug_char(slug_of(s)[k]),
        slug_of(s).len() > 0 ==> slug_of(s)[0] != '_' && slug_of(s).last() != '_',
{
    let m = s.map_values(|c: char| slug_char(c));
    let a = choose_leading(m);
    lemma_strip_leading(m, a);
    let t = m.skip(a);
    let b = choose_trailing(t);
    lemma_strip_trailing(t, b);
    assert forall|k: int| 0 <= k < slug_of(s).len() implies #[trigger] is_slug_char(slug_of(s)[k]) by {
        assert(slug_of(s)[k] == m[a + k]);
    }
    if slug_of(s).len() > 0 {
        assert(slug_of(s)[0] == t[0]);
        assert(slug_of(s).last() == t[b - 1]);
    }
}

proof fn choose_leading(m: Seq<char>) -> (a: int)
    ensures
        0 <= a <= m.len(),
        forall|k: int| 0 <= k < a ==> m[k] == '_',
        a == m.len() || m[a] != '_',
    decreases m.len(),
{
    if m.len() > 0 && m[0] == '_' {
        let a = choose_leading(m.drop_first());
        assert forall|k: int| 0 <= k < a + 1 implies m[k] == '_' by {
            if k > 0 {
                assert(m[k] == m.drop_first()[k - 1]);
            }
        }
        if a + 1 < m.len() {
            assert(m[a + 1] == m.drop_first()[a]);
        }
        a + 1
    } else {
        0
    }
}

proof fn choose_trailing(t: Seq<char>) -> (b: int)
    ensures
        0 <= b <= t.len(),
        forall|k: int| b <= k < t.len() ==> t[k] == '_',
        b == 0 || t[b - 1] != '_',
        t.len() > 0 && t[0] != '_' ==> b > 0,
    decreases t.len(),
{
    if t.len() > 0 && t.last() == '_' {
        let b = choose_trailing(t.drop_last());
        assert forall|k: int| b <= k < t.len() implies t[k] == '_' by {
            if k < t.len() - 1 {
                assert(t[k] == t.drop_last()[k]);
            }
        }
        if b > 0 {
            assert(t[b - 1] == t.drop_last()[b - 1]);
        }
        if t.len() > 1 && t[0] != '_' {
            assert(t.drop_last()[0] == t[0]);
        }
        b
    } else {
        t.len() as int
    }
}

} // verus!
