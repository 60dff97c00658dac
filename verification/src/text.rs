//! Character and string helpers shared by the library: whitespace trimming,
//! decimal parsing, lowercasing and conversions between `&str`, `String`
//! and character vectors.
use vstd::prelude::*;

verus! {

// ---------------------------------------------------------------------------
// Character classes and case mapping provided by std
// ---------------------------------------------------------------------------

/// Whether `c` has the Unicode `White_Space` property (the property that
/// `char::is_whitespace` reports): tab to carriage return, space, next line,
/// no-break space, ogham space mark, the spaces from en quad to hair space,
/// line and paragraph separators, narrow no-break space, medium mathematical
/// space and ideographic space.
pub open spec fn char_is_whitespace(c: char) -> bool {
    let n = c as u32;
    ||| 0x09 <= n <= 0x0D
    ||| n == 0x20
    ||| n == 0x85
    ||| n == 0xA0
    ||| n == 0x1680
    ||| 0x2000 <= n <= 0x200A
    ||| n == 0x2028
    ||| n == 0x2029
    ||| n == 0x202F
    ||| n == 0x205F
    ||| n == 0x3000
}

/// Whether `c` is alphabetic or numeric in the Unicode sense, as
/// `char::is_alphanumeric` reports it.
pub uninterp spec fn char_is_alphanumeric(c: char) -> bool;

/// The full Unicode lowercase mapping of a string, as `str::to_lowercase` computes it.
pub uninterp spec fn str_to_lowercase(s: Seq<char>) -> Seq<char>;

/// Whether `c` is whitespace (the `White_Space` property, as
/// `char::is_whitespace` decides it).
pub(crate) fn is_whitespace(c: char) -> (r: bool)
    ensures
        r == char_is_whitespace(c),
{
    let n = c as u32;
    (0x09 <= n && n <= 0x0D) || n == 0x20 || n == 0x85 || n == 0xA0 || n == 0x1680 || (0x2000 <= n && n
        <= 0x200A) || n == 0x2028 || n == 0x2029 || n == 0x202F || n == 0x205F || n == 0x3000
}

/// `char::is_alphanumeric`: the result is the named Unicode property of `c`.
#[verifier::external_body]
pub(crate) fn is_alphanumeric(c: char) -> (r: bool)
    ensures
        r == char_is_alphanumeric(c),
{
    c.is_alphanumeric()
}

/// `str::to_lowercase`: the result is the named lowercase mapping of `s`.
#[verifier::external_body]
pub(crate) fn to_lowercase(s: &str) -> (r: String)
    ensures
        r@ == str_to_lowercase(s@),
{
    s.to_lowercase()
}

/// `String::push`: appends one character.
#[verifier::external_body]
pub(crate) fn push_char(s: &mut String, c: char)
    ensures
        final(s)@ == old(s)@.push(c),
{
    s.push(c)
}

// ---------------------------------------------------------------------------
// Conversions
// ---------------------------------------------------------------------------

/// The characters of `s`, in order.
pub fn chars_of(s: &str) -> (r: Vec<char>)
    ensures
        r@ == s@,
{
    let mut out: Vec<char> = Vec::new();
    for c in it: s.chars()
        invariant
            out@ == it.seq().take(it.index() as int),
            it.seq() == s@,
    {
        out.push(c);
    }
    out
}

/// The string made of the characters `v[from..to]`.
pub fn string_of_range(v: &Vec<char>, from: usize, to: usize) -> (r: String)
    requires
        from <= to <= v.len(),
    ensures
        r@ == v@.subrange(from as int, to as int),
{
    let mut out = String::new();
    let mut i = from;
    while i < to
        invariant
            from <= i <= to <= v.len(),
            out@ == v@.subrange(from as int, i as int),
        decreases to - i,
    {
        push_char(&mut out, v[i]);
        assert(v@.subrange(from as int, i + 1) =~= v@.subrange(from as int, i as int).push(v@[i as int]));
        i += 1;
    }
    out
}

/// The string made of all characters of `v`.
pub fn string_of(v: &Vec<char>) -> (r: String)
    ensures
        r@ == v@,
{
    let r = string_of_range(v, 0, v.len());
    assert(v@.subrange(0, v@.len() as int) =~= v@);
    r
}

// ---------------------------------------------------------------------------
// Whitespace trimming (`str::trim`)
// ---------------------------------------------------------------------------

/// `s` without its leading whitespace.
pub open spec fn trim_start(s: Seq<char>) -> Seq<char>
    decreases s.len(),
{
    if s.len() > 0 && char_is_whitespace(s[0]) {
        trim_start(s.drop_first())
    } else {
        s
    }
}

/// `s` without its trailing whitespace.
pub open spec fn trim_end(s: Seq<char>) -> Seq<char>
    decreases s.len(),
{
    if s.len() > 0 && char_is_whitespace(s.last()) {
        trim_end(s.drop_last())
    } else {
        s
    }
}

/// `s` without leading and trailing whitespace.
pub open spec fn trim_ws(s: Seq<char>) -> Seq<char> {
    trim_end(trim_start(s))
}

/// Whether every character of `s` is whitespace.
pub open spec fn all_whitespace(s: Seq<char>) -> bool {
    forall|k: int| 0 <= k < s.len() ==> #[trigger] char_is_whitespace(s[k])
}

proof fn lemma_trim_start_skip(s: Seq<char>, i: int)
    requires
        0 <= i <= s.len(),
        forall|k: int| 0 <= k < i ==> #[trigger] char_is_whitespace(s[k]),
        i == s.len() || !char_is_whitespace(s[i]),
    ensures
        trim_start(s) == s.skip(i),
    decreases i,
{
    if i == 0 {
        assert(s.skip(0) =~= s);
    } else {
        let t = s.drop_first();
        assert(char_is_whitespace(s[0]));
        assert forall|k: int| 0 <= k < i - 1 implies #[trigger] char_is_whitespace(t[k]) by {
            assert(t[k] == s[k + 1]);
        }
        lemma_trim_start_skip(t, i - 1);
        assert(t.skip(i - 1) =~= s.skip(i));
    }
}

proof fn lemma_trim_end_take(s: Seq<char>, j: int)
    requires
        0 <= j <= s.len(),
        forall|k: int| j <= k < s.len() ==> #[trigger] char_is_whitespace(s[k]),
        j == 0 || !char_is_whitespace(s[j - 1]),
    ensures
        trim_end(s) == s.take(j),
    decreases s.len() - j,
{
    if j == s.len() {
        assert(s.take(j) =~= s);
    } else {
        let t = s.drop_last();
        assert(char_is_whitespace(s[s.len() - 1]));
        assert forall|k: int| j <= k < t.len() implies #[trigger] char_is_whitespace(t[k]) by {
            assert(t[k] == s[k]);
        }
        lemma_trim_end_take(t, j);
        assert(t.take(j) =~= s.take(j));
    }
}

/// The bounds `(start, end)` such that `v[start..end]` is `v` trimmed of
/// surrounding whitespace.
pub fn trim_bounds(v: &Vec<char>) -> (r: (usize, usize))
    ensures
        r.0 <= r.1 <= v.len(),
        v@.subrange(r.0 as int, r.1 as int) == trim_ws(v@),
{
    let mut i: usize = 0;
    while i < v.len() && is_whitespace(v[i])
        invariant
            i <= v.len(),
            forall|k: int| 0 <= k < i ==> #[trigger] char_is_whitespace(v@[k]),
        decreases v.len() - i,
    {
        i += 1;
    }
    proof {
        lemma_trim_start_skip(v@, i as int);
    }
    let mut j: usize = v.len();
    while j > i && is_whitespace(v[j - 1])
        invariant
            i <= j <= v.len(),
            forall|k: int| j <= k < v.len() ==> #[trigger] char_is_whitespace(v@[k]),
        decreases j,
    {
        j -= 1;
    }
    proof {
        let t = v@.skip(i as int);
        assert forall|k: int| j - i <= k < t.len() implies #[trigger] char_is_whitespace(t[k]) by {
            assert(t[k] == v@[k + i]);
        }
        if j > i {
            assert(t[j - i - 1] == v@[j - 1]);
        }
        lemma_trim_end_take(t, j - i);
        assert(t.take(j - i) =~= v@.subrange(i as int, j as int));
    }
    (i, j)
}

/// `v` with surrounding whitespace removed.
pub fn trim_chars(v: &Vec<char>) -> (r: Vec<char>)
    ensures
        r@ == trim_ws(v@),
{
    let (a, b) = trim_bounds(v);
    let mut out: Vec<char> = Vec::new();
    let mut i = a;
    while i < b
        invariant
            a <= i <= b <= v.len(),
            out@ == v@.subrange(a as int, i as int),
        decreases b - i,
    {
        out.push(v[i]);
        assert(v@.subrange(a as int, i + 1) =~= v@.subrange(a as int, i as int).push(v@[i as int]));
        i += 1;
    }
    out
}

/// A string is blank exactly when trimming leaves nothing.
pub proof fn lemma_trim_empty_iff_all_whitespace(s: Seq<char>)
    ensures
        trim_ws(s).len() == 0 <==> all_whitespace(s),
    decreases s.len(),
{
    if s.len() > 0 && char_is_whitespace(s[0]) {
        lemma_trim_empty_iff_all_whitespace(s.drop_first());
        if all_whitespace(s.drop_first()) {
            assert forall|k: int| 0 <= k < s.len() implies #[trigger] char_is_whitespace(s[k]) by {
                if k > 0 {
                    assert(s[k] == s.drop_first()[k - 1]);
                }
            }
        }
        if all_whitespace(s) {
            assert forall|k: int| 0 <= k < s.drop_first().len() implies #[trigger] char_is_whitespace(s.drop_first()[k]) by {
                assert(s.drop_first()[k] == s[k + 1]);
            }
        }
    } else {
        // trim_start(s) == s, and s is empty or starts with a non-space
        lemma_trim_end_nonspace_start(s);
    }
}

proof fn lemma_trim_end_nonspace_start(s: Seq<char>)
    requires
        s.len() == 0 || !char_is_whitespace(s[0]),
    ensures
        trim_end(s).len() == 0 <==> s.len() == 0,
    decreases s.len(),
{
    if s.len() > 0 && char_is_whitespace(s.last()) {
        assert(s.len() > 1);
        assert(s.drop_last()[0] == s[0]);
        lemma_trim_end_nonspace_start(s.drop_last());
    }
}

// ---------------------------------------------------------------------------
// Decimal numbers (`usize::from_str`)
// ---------------------------------------------------------------------------

/// Whether `c` is one of the ASCII digits `0`..`9`.
pub open spec fn is_digit(c: char) -> bool {
    '0' <= c <= '9'
}

/// The value of the decimal digit `c`.
pub open spec fn digit_value(c: char) -> nat {
    (c as nat - '0' as nat) as nat
}

/// The value of a sequence of decimal digits, most significant first.
pub open spec fn digits_value(d: Seq<char>) -> nat
    decreases d.len(),
{
    if d.len() == 0 {
        0
    } else {
        digits_value(d.drop_last()) * 10 + digit_value(d.last())
    }
}

/// The digits part of a number: the text after an optional leading `+`.
pub open spec fn unsigned_digits(t: Seq<char>) -> Seq<char> {
    if t.len() > 0 && t[0] == '+' {
        t.drop_first()
    } else {
        t
    }
}

/// What `str::parse::<usize>` gives for `t`: an optional `+` followed by at
/// least one ASCII digit, with a value that fits in `usize`; `None` otherwise.
pub open spec fn parse_usize(t: Seq<char>) -> Option<usize> {
    let d = unsigned_digits(t);
    if d.len() > 0 && (forall|k: int| 0 <= k < d.len() ==> #[trigger] is_digit(d[k]))
        && digits_value(d) <= usize::MAX {
        Some(digits_value(d) as usize)
    } else {
        None
    }
}

proof fn lemma_digits_value_monotone(d: Seq<char>, i: int)
    requires
        0 <= i <= d.len(),
    ensures
        digits_value(d.take(i)) <= digits_value(d),
    decreases d.len() - i,
{
    if i < d.len() {
        lemma_digits_value_monotone(d, i + 1);
        assert(d.take(i + 1).drop_last() =~= d.take(i));
    } else {
        assert(d.take(i) =~= d);
    }
}

/// Parses `t` as `str::parse::<usize>` does.
pub fn parse_usize_chars(t: &Vec<char>) -> (r: Option<usize>)
    ensures
        r == parse_usize(t@),
{
    let start: usize = if t.len() > 0 && t[0] == '+' { 1 } else { 0 };
    let ghost d = unsigned_digits(t@);
    assert(d =~= t@.skip(start as int));
    if start >= t.len() {
        return None;
    }
    let mut value: usize = 0;
    let mut i = start;
    while i < t.len()
        invariant
            start <= i <= t.len(),
            d == t@.skip(start as int),
            d == unsigned_digits(t@),
            value as nat == digits_value(d.take(i - start)),
            forall|k: int| 0 <= k < i - start ==> #[trigger] is_digit(d[k]),
        decreases t.len() - i,
    {
        let c = t[i];
        assert(d[i - start] == c);
        if !('0' <= c && c <= '9') {
            assert(!is_digit(d[i - start]));
            assert(!(forall|k: int| 0 <= k < d.len() ==> #[trigger] is_digit(d[k])));
            return None;
        }
        let dig = (c as u32 - '0' as u32) as usize;
        assert(d.take(i - start + 1).drop_last() =~= d.take(i - start));
        let m = value.checked_mul(10);
        if m.is_none() {
            proof {
                lemma_digits_value_monotone(d, i - start + 1);
                assert(digits_value(d.take(i - start + 1)) == value * 10 + digit_value(c));
                assert(digits_value(d) > usize::MAX);
            }
            return None;
        }
        let s = m.unwrap().checked_add(dig);
        if s.is_none() {
            proof {
                lemma_digits_value_monotone(d, i - start + 1);
            }
            return None;
        }
        value = s.unwrap();
        i += 1;
    }
    assert(d.take(i - start) =~= d);
    Some(value)
}

// ---------------------------------------------------------------------------
// Splitting on a separator (`str::split`) and affix tests
// ---------------------------------------------------------------------------

/// The pieces of `s` read so far and the piece being read, when splitting on `sep`.
pub open spec fn split_on_state(s: Seq<char>, sep: char) -> (Seq<Seq<char>>, Seq<char>)
    decreases s.len(),
{
    if s.len() == 0 {
        (Seq::empty(), Seq::empty())
    } else {
        let st = split_on_state(s.drop_last(), sep);
        if s.last() == sep {
            (st.0.push(st.1), Seq::empty())
        } else {
            (st.0, st.1.push(s.last()))
        }
    }
}

/// The pieces of `s` between occurrences of `sep`, empty pieces included
/// (`str::split` with a character pattern); there is always at least one.
pub open spec fn split_on(s: Seq<char>, sep: char) -> Seq<Seq<char>> {
    let st = split_on_state(s, sep);
    st.0.push(st.1)
}

/// Whether `s` ends with `suffix`.
pub open spec fn ends_with(s: Seq<char>, suffix: Seq<char>) -> bool {
    suffix.len() <= s.len() && s.skip(s.len() - suffix.len()) == suffix
}

/// Whether `s` starts with `prefix`.
pub open spec fn starts_with(s: Seq<char>, prefix: Seq<char>) -> bool {
    prefix.len() <= s.len() && s.take(prefix.len() as int) == prefix
}

/// Splits `v` on `sep`, as `str::split` does.
pub fn split_chars(v: &Vec<char>, sep: char) -> (r: Vec<Vec<char>>)
    ensures
        r.deep_view() == split_on(v@, sep),
        r.len() >= 1,
{
    let mut done: Vec<Vec<char>> = Vec::new();
    let mut cur: Vec<char> = Vec::new();
    let mut i: usize = 0;
    while i < v.len()
        invariant
            i <= v.len(),
            done.deep_view() == split_on_state(v@.take(i as int), sep).0,
            cur@ == split_on_state(v@.take(i as int), sep).1,
        decreases v.len() - i,
    {
        assert(v@.take(i + 1).drop_last() =~= v@.take(i as int));
        let ghost old_done = done.deep_view();
        if v[i] == sep {
            let piece = cur;
            let ghost pv = piece@;
            assert(piece.deep_view() =~= pv);
            cur = Vec::new();
            done.push(piece);
            assert(done.deep_view() =~= old_done.push(pv));
        } else {
            cur.push(v[i]);
        }
        i += 1;
    }
    assert(v@.take(v.len() as int) =~= v@);
    let ghost old_done = done.deep_view();
    let ghost last = cur@;
    assert(cur.deep_view() =~= last);
    done.push(cur);
    assert(done.deep_view() =~= old_done.push(last));
    done
}

/// The text of `v` before the first `sep` (all of `v` when there is none).
pub fn first_piece(v: &Vec<char>, sep: char) -> (r: Vec<char>)
    ensures
        r@ == split_on(v@, sep)[0],
{
    let mut pieces = split_chars(v, sep);
    assert(pieces.deep_view()[0] == pieces@[0]@);
    pieces.swap_remove(0)
}

/// The text of `v` after the last `sep` (all of `v` when there is none).
pub fn last_piece(v: &Vec<char>, sep: char) -> (r: Vec<char>)
    ensures
        r@ == split_on(v@, sep).last(),
{
    let mut pieces = split_chars(v, sep);
    let n = pieces.len();
    assert(pieces.deep_view()[n - 1] == pieces@[n - 1]@);
    pieces.pop().unwrap()
}

/// Whether `a` and `b` hold the same characters.
pub fn chars_eq(a: &Vec<char>, b: &Vec<char>) -> (r: bool)
    ensures
        r == (a@ == b@),
{
    if a.len() != b.len() {
        return false;
    }
    let mut i: usize = 0;
    while i < a.len()
        invariant
            a.len() == b.len(),
            i <= a.len(),
            forall|k: int| 0 <= k < i ==> a@[k] == b@[k],
        decreases a.len() - i,
    {
        if a[i] != b[i] {
            return false;
        }
        i += 1;
    }
    assert(a@ =~= b@);
    true
}

/// Whether `s` ends with `suffix`.
pub fn chars_ends_with(s: &Vec<char>, suffix: &Vec<char>) -> (r: bool)
    ensures
        r == ends_with(s@, suffix@),
{
    if suffix.len() > s.len() {
        return false;
    }
    let off = s.len() - suffix.len();
    let mut i: usize = 0;
    while i < suffix.len()
        invariant
            off == s.len() - suffix.len(),
            i <= suffix.len(),
            forall|k: int| 0 <= k < i ==> s@[off + k] == suffix@[k],
        decreases suffix.len() - i,
    {
        if s[off + i] != suffix[i] {
            assert(s@.skip(off as int)[i as int] != suffix@[i as int]);
            return false;
        }
        i += 1;
    }
    assert(s@.skip(off as int) =~= suffix@);
    true
}

/// Whether `s` starts with `prefix`.
pub fn chars_starts_with(s: &Vec<char>, prefix: &Vec<char>) -> (r: bool)
    ensures
        r == starts_with(s@, prefix@),
{
    if prefix.len() > s.len() {
        return false;
    }
    let mut i: usize = 0;
    while i < prefix.len()
        invariant
            prefix.len() <= s.len(),
            i <= prefix.len(),
            forall|k: int| 0 <= k < i ==> s@[k] == prefix@[k],
        decreases prefix.len() - i,
    {
        if s[i] != prefix[i] {
            assert(s@.take(prefix.len() as int)[i as int] != prefix@[i as int]);
            return false;
        }
        i += 1;
    }
    assert(s@.take(prefix.len() as int) =~= prefix@);
    true
}

/// Whether `s` contains `needle` as a contiguous run.
pub open spec fn contains_run(s: Seq<char>, needle: Seq<char>) -> bool {
    exists|i: int| 0 <= i <= s.len() - needle.len() && #[trigger] s.subrange(i, i + needle.len()) == needle
}

/// Whether `s` contains `needle` as a contiguous run (`str::contains`).
pub fn chars_contains(s: &Vec<char>, needle: &Vec<char>) -> (r: bool)
    ensures
        r == contains_run(s@, needle@),
{
    if needle.len() > s.len() {
        return false;
    }
    let last = s.len() - needle.len();
    let mut i: usize = 0;
    while i <= last
        invariant
            last == s.len() - needle.len(),
            i <= last + 1,
            forall|j: int| 0 <= j < i ==> #[trigger] s@.subrange(j, j + needle.len()) != needle@,
        decreases last + 1 - i,
    {
        let mut k: usize = 0;
        let mut same = true;
        while k < needle.len()
            invariant
                i <= last,
                last == s.len() - needle.len(),
                k <= needle.len(),
                same == (forall|m: int| 0 <= m < k ==> s@[i + m] == needle@[m]),
            decreases needle.len() - k,
        {
            if s[i + k] != needle[k] {
                same = false;
            }
            k += 1;
        }
        if same {
            assert(s@.subrange(i as int, i + needle.len()) =~= needle@);
            return true;
        }
        assert(s@.subrange(i as int, i + needle.len()) != needle@) by {
            let m = choose|m: int| 0 <= m < needle.len() && s@[i + m] != needle@[m];
            assert(s@.subrange(i as int, i + needle.len())[m] != needle@[m]);
        }
        i += 1;
    }
    false
}

/// Whether `pat` occurs in `s` at position `i`.
pub open spec fn occurs_at(s: Seq<char>, pat: Seq<char>, i: int) -> bool {
    0 <= i && i + pat.len() <= s.len() && s.subrange(i, i + pat.len()) == pat
}

/// The characters `v[from..to]`.
pub fn copy_range(v: &Vec<char>, from: usize, to: usize) -> (r: Vec<char>)
    requires
        from <= to <= v.len(),
    ensures
        r@ == v@.subrange(from as int, to as int),
{
    let mut out: Vec<char> = Vec::new();
    let mut k = from;
    while k < to
        invariant
            from <= k <= to <= v.len(),
            out@ == v@.subrange(from as int, k as int),
        decreases to - k,
    {
        out.push(v[k]);
        assert(v@.subrange(from as int, k + 1) =~= v@.subrange(from as int, k as int).push(v@[k as int]));
        k += 1;
    }
    out
}

/// The position of the first occurrence of `pat` in `s`.
#[verifier::opaque]
pub open spec fn first_occurrence(s: Seq<char>, pat: Seq<char>) -> Option<int> {
    if exists|i: int| occurs_at(s, pat, i) {
        Some(choose|i: int| occurs_at(s, pat, i) && forall|j: int| 0 <= j < i ==> !occurs_at(s, pat, j))
    } else {
        None
    }
}

/// The position of the first occurrence of `pat` in `s` (`str::find`).
pub fn find_chars(s: &Vec<char>, pat: &Vec<char>) -> (r: Option<usize>)
    ensures
        match r {
            Some(i) => first_occurrence(s@, pat@) == Some(i as int) && occurs_at(s@, pat@, i as int),
            None => first_occurrence(s@, pat@) is None,
        },
{
    reveal(first_occurrence);
    if pat.len() > s.len() {
        assert(!exists|i: int| occurs_at(s@, pat@, i));
        return None;
    }
    let last = s.len() - pat.len();
    let mut i: usize = 0;
    while i <= last
        invariant
            last == s.len() - pat.len(),
            i <= last + 1,
            forall|j: int| 0 <= j < i ==> !occurs_at(s@, pat@, j),
        decreases last + 1 - i,
    {
        let mut k: usize = 0;
        let mut same = true;
        while k < pat.len()
            invariant
                i <= last,
                last == s.len() - pat.len(),
                k <= pat.len(),
                same == (forall|m: int| 0 <= m < k ==> s@[i + m] == pat@[m]),
            decreases pat.len() - k,
        {
            if s[i + k] != pat[k] {
                same = false;
            }
            k += 1;
        }
        if same {
            reveal(first_occurrence);
            assert(s@.subrange(i as int, i + pat.len()) =~= pat@);
            assert(occurs_at(s@, pat@, i as int));
            let ghost c = choose|c: int| occurs_at(s@, pat@, c) && forall|j: int| 0 <= j < c ==> !occurs_at(s@, pat@, j);
            assert(c == i) by {
                if c > i {
                    assert(!occurs_at(s@, pat@, i as int));
                }
            }
            return Some(i);
        }
        assert(!occurs_at(s@, pat@, i as int)) by {
            let m = choose|m: int| 0 <= m < pat.len() && s@[i + m] != pat@[m];
            assert(s@.subrange(i as int, i + pat.len())[m] != pat@[m]);
        }
        i += 1;
    }
    reveal(first_occurrence);
    None
}

} // verus!
