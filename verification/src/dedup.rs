//! Order-preserving deduplication backed by `FxHashSet`.
use vstd::prelude::*;

use core::hash::Hash;
use rustc_hash::{FxBuildHasher, FxHashSet};
use vstd::std_specs::hash::obeys_key_model;

verus! {

#[verifier::external_type_specification]
#[verifier::external_body]
pub struct ExFxBuildHasher(FxBuildHasher);

/// The strings that an `FxHashSet<String>` holds, by their text.
pub uninterp spec fn fx_string_set(set: FxHashSet<String>) -> Set<Seq<char>>;

/// `FxHashSet::with_capacity_and_hasher`: a new set holds no strings.
#[verifier::external_body]
pub(crate) fn fx_strings_with_capacity(capacity: usize) -> (r: FxHashSet<String>)
    ensures
        fx_string_set(r) == Set::<Seq<char>>::empty(),
{
    FxHashSet::with_capacity_and_hasher(capacity, Default::default())
}

/// `HashSet::contains` on an `FxHashSet<String>`: whether a string with the
/// same text is in the set.
#[verifier::external_body]
pub(crate) fn fx_strings_contains(set: &FxHashSet<String>, s: &String) -> (r: bool)
    ensures
        r == fx_string_set(*set).contains(s@),
{
    set.contains(s)
}

/// `HashSet::insert` on an `FxHashSet<String>`: adds the text of `s`, and
/// tells whether it was absent before.
#[verifier::external_body]
pub(crate) fn fx_strings_insert(set: &mut FxHashSet<String>, s: String) -> (r: bool)
    ensures
        fx_string_set(*final(set)) == fx_string_set(*old(set)).insert(s@),
        r == !fx_string_set(*old(set)).contains(s@),
{
    set.insert(s)
}

/// `FxHashSet::with_capacity_and_hasher` for any key type: a new set is empty.
#[verifier::external_body]
fn fx_keys_with_capacity<K>(capacity: usize) -> (r: FxHashSet<K>)
    ensures
        r@ == Set::<K>::empty(),
{
    FxHashSet::with_capacity_and_hasher(capacity, Default::default())
}

/// `HashSet::insert` on an `FxHashSet<K>`: when `K`'s equality and hashing
/// agree (`obeys_key_model`), adds `k` and tells whether it was absent before.
#[verifier::external_body]
fn fx_keys_insert<K: Eq + Hash>(set: &mut FxHashSet<K>, k: K) -> (r: bool)
    ensures
        obeys_key_model::<K>() ==> {
            &&& final(set)@ == old(set)@.insert(k)
            &&& r == !old(set)@.contains(k)
        },
{
    set.insert(k)
}

/// `s` with every element after its first occurrence removed.
pub open spec fn dedup_first<A>(s: Seq<A>) -> Seq<A>
    decreases s.len(),
{
    if s.len() == 0 {
        Seq::empty()
    } else {
        let p = dedup_first(s.drop_last());
        if p.contains(s.last()) {
            p
        } else {
            p.push(s.last())
        }
    }
}


/// Deduplicating keeps exactly the elements of `s`, each once.
pub proof fn lemma_dedup_first_contains<A>(s: Seq<A>)
    ensures
        forall|x: A| dedup_first(s).contains(x) <==> s.contains(x),
        dedup_first(s).no_duplicates(),
    decreases s.len(),
{
    if s.len() > 0 {
        let p = dedup_first(s.drop_last());
        lemma_dedup_first_contains(s.drop_last());
        assert forall|x: A| dedup_first(s).contains(x) <==> s.contains(x) by {
            if s.contains(x) {
                let k = choose|k: int| 0 <= k < s.len() && s[k] == x;
                if k < s.len() - 1 {
                    assert(s.drop_last()[k] == x);
                }
            }
            if s.drop_last().contains(x) {
                let k = choose|k: int| 0 <= k < s.drop_last().len() && s.drop_last()[k] == x;
                assert(s[k] == x);
            }
            if !p.contains(s.last()) && p.push(s.last()).contains(x) {
                let k = choose|k: int| 0 <= k < p.push(s.last()).len() && p.push(s.last())[k] == x;
                if k < p.len() {
                    assert(p[k] == x);
                }
            }
            if p.contains(x) {
                let k = choose|k: int| 0 <= k < p.len() && p[k] == x;
                assert(p.push(s.last())[k] == x);
            }
            assert(s[s.len() - 1] == s.last());
            if !p.contains(s.last()) {
                assert(p.push(s.last())[p.len() as int] == s.last());
            }
        }
    }
}


/// The elements of `cands` that are neither in `seen` nor earlier in `cands`, in order.
pub open spec fn fresh_in_order<A>(seen: Set<A>, cands: Seq<A>) -> Seq<A>
    decreases cands.len(),
{
    if cands.len() == 0 {
        Seq::empty()
    } else {
        let p = fresh_in_order(seen, cands.drop_last());
        if seen.contains(cands.last()) || p.contains(cands.last()) {
            p
        } else {
            p.push(cands.last())
        }
    }
}

/// Everything `fresh_in_order` keeps was new, and it keeps each new element once.
pub proof fn lemma_fresh_in_order<A>(seen: Set<A>, cands: Seq<A>)
    ensures
        forall|x: A| fresh_in_order(seen, cands).contains(x) <==> (cands.contains(x) && !seen.contains(x)),
        fresh_in_order(seen, cands).no_duplicates(),
    decreases cands.len(),
{
    if cands.len() > 0 {
        let q = cands.drop_last();
        let p = fresh_in_order(seen, q);
        lemma_fresh_in_order(seen, q);
        let l = cands.last();
        assert forall|x: A| fresh_in_order(seen, cands).contains(x) <==> (cands.contains(x) && !seen.contains(x)) by {
            if cands.contains(x) {
                let k = choose|k: int| 0 <= k < cands.len() && cands[k] == x;
                if k < cands.len() - 1 {
                    assert(q[k] == x);
                    assert(q.contains(x));
                }
            }
            if q.contains(x) {
                let k = choose|k: int| 0 <= k < q.len() && q[k] == x;
                assert(cands[k] == x);
            }
            assert(cands[cands.len() - 1] == l);
            if !(seen.contains(l) || p.contains(l)) {
                let pp = p.push(l);
                assert(pp[p.len() as int] == l);
                if pp.contains(x) {
                    let k = choose|k: int| 0 <= k < pp.len() && pp[k] == x;
                    if k < p.len() {
                        assert(p[k] == x);
                    }
                }
                if p.contains(x) {
                    let k = choose|k: int| 0 <= k < p.len() && p[k] == x;
                    assert(pp[k] == x);
                }
            }
        }
    }
}

/// The texts of a list of strings.
pub open spec fn strings_view(v: Seq<String>) -> Seq<Seq<char>> {
    v.map_values(|s: String| s@)
}

/// Removes duplicate strings while preserving insertion order: each text is
/// kept at its first occurrence.
pub fn dedup_strings(items: Vec<String>) -> (r: Vec<String>)
    ensures
        strings_view(r@) == dedup_first(strings_view(items@)),
{
    let ghost iv = strings_view(items@);
    let mut seen = fx_strings_with_capacity(items.len());
    let mut out: Vec<String> = Vec::new();
    let n = items.len();
    for item in it: items
        invariant
            it.seq() == items@,
            iv == strings_view(items@),
            n == items@.len(),
            strings_view(out@) == dedup_first(iv.take(it.index() as int)),
            fx_string_set(seen) == iv.take(it.index() as int).to_set(),
    {
        let ghost i = it.index() as int;
        proof {
            lemma_dedup_first_contains(iv.take(i));
            assert(iv.take(i + 1).drop_last() =~= iv.take(i));
            assert(iv.take(i + 1).last() == item@);
            lemma_take_push_to_set(iv, i);
        }
        if !fx_strings_contains(&seen, &item) {
            fx_strings_insert(&mut seen, item.clone());
            let ghost before = out@;
            out.push(item);
            assert(strings_view(out@) =~= strings_view(before).push(iv[i]));
        }
    }
    proof {
        assert(iv.take(n as int) =~= iv);
    }
    out
}

pub(crate) proof fn lemma_take_push_to_set<A>(s: Seq<A>, i: int)
    requires
        0 <= i < s.len(),
    ensures
        s.take(i + 1).to_set() == s.take(i).to_set().insert(s[i]),
        s.take(i).to_set().contains(s[i]) == s.take(i).contains(s[i]),
{
    let t1 = s.take(i + 1);
    let t0 = s.take(i);
    assert(t1.to_set() =~= t0.to_set().insert(s[i])) by {
        assert forall|y: A| t1.contains(y) <==> t0.contains(y) || y == s[i] by {
            if t1.contains(y) {
                let k = choose|k: int| 0 <= k < t1.len() && t1[k] == y;
                if k < i {
                    assert(t0[k] == y);
                }
            }
            if t0.contains(y) {
                let k = choose|k: int| 0 <= k < t0.len() && t0[k] == y;
                assert(t1[k] == y);
            }
            if y == s[i] {
                assert(t1[i] == y);
            }
        }
    }
}

/// The elements of `items` whose key (given by `keys`, one per element) did
/// not occur earlier, in order.
pub open spec fn first_by_key<T, K>(items: Seq<T>, keys: Seq<K>) -> Seq<T>
    decreases items.len(),
{
    if items.len() == 0 {
        Seq::empty()
    } else {
        let p = first_by_key(items.drop_last(), keys.take(items.len() - 1));
        if keys.take(items.len() - 1).contains(keys[items.len() - 1]) {
            p
        } else {
            p.push(items.last())
        }
    }
}

/// Keeping the first item per key leaves items of `items` whose keys are
/// distinct, and every key of `items` is the key of a kept item.
pub proof fn lemma_first_by_key<T, K>(items: Seq<T>, keys: Seq<K>, key: spec_fn(T) -> K)
    requires
        keys.len() == items.len(),
        forall|i: int| 0 <= i < items.len() ==> keys[i] == key(#[trigger] items[i]),
    ensures
        first_by_key(items, keys).map_values(key).no_duplicates(),
        forall|k: K| first_by_key(items, keys).map_values(key).contains(k) <==> keys.contains(k),
        forall|x: T| first_by_key(items, keys).contains(x) ==> items.contains(x),
    decreases items.len(),
{
    if items.len() > 0 {
        let n = items.len() - 1;
        let q = items.drop_last();
        let kq = keys.take(n);
        lemma_first_by_key(q, kq, key);
        let p = first_by_key(q, kq);
        let pk = p.map_values(key);
        let l = items.last();
        assert(keys[n] == key(items[n]));
        assert forall|x: T| first_by_key(items, keys).contains(x) implies items.contains(x) by {
            if p.contains(x) {
                assert(q.contains(x));
                let j = choose|j: int| 0 <= j < q.len() && q[j] == x;
                assert(items[j] == x);
            } else {
                let r = p.push(l);
                let j = choose|j: int| 0 <= j < r.len() && r[j] == x;
                if j < p.len() {
                    assert(p[j] == x);
                }
                assert(items[n] == l);
            }
        }
        if !kq.contains(keys[n]) {
            let r = p.push(l);
            assert(r.map_values(key) =~= pk.push(key(l)));
            assert(!pk.contains(key(l)));
            assert forall|i: int, j: int| 0 <= i < j < r.len() implies r.map_values(key)[i] != r.map_values(key)[j] by {
                if j == p.len() {
                    assert(pk[i] == pk[i]);
                    assert(pk.contains(pk[i]));
                }
            }
            assert forall|x: T| r.contains(x) implies p.contains(x) || x == l by {
                let j = choose|j: int| 0 <= j < r.len() && r[j] == x;
                if j < p.len() {
                    assert(p[j] == x);
                }
            }
            assert forall|k: K| r.map_values(key).contains(k) <==> keys.contains(k) by {
                if keys.contains(k) {
                    let j = choose|j: int| 0 <= j < keys.len() && keys[j] == k;
                    if j < n {
                        assert(kq[j] == k);
                        assert(kq.contains(k));
                        assert(pk.contains(k));
                        let m = choose|m: int| 0 <= m < pk.len() && pk[m] == k;
                        assert(r.map_values(key)[m] == k);
                    } else {
                        assert(r.map_values(key)[p.len() as int] == k);
                    }
                }
                if r.map_values(key).contains(k) {
                    let m = choose|m: int| 0 <= m < r.len() && r.map_values(key)[m] == k;
                    if m < p.len() {
                        assert(pk[m] == k);
                        assert(kq.contains(k));
                        let j = choose|j: int| 0 <= j < kq.len() && kq[j] == k;
                        assert(keys[j] == k);
                    } else {
                        assert(keys[n] == k);
                    }
                }
            }
        } else {
            assert forall|k: K| pk.contains(k) <==> keys.contains(k) by {
                if keys.contains(k) {
                    let j = choose|j: int| 0 <= j < keys.len() && keys[j] == k;
                    if j < n {
                        assert(kq[j] == k);
                    }
                }
                if kq.contains(k) {
                    let j = choose|j: int| 0 <= j < kq.len() && kq[j] == k;
                    assert(keys[j] == k);
                }
            }
        }
    }
}

/// Removes items whose `String` key was already seen, preserving order (the
/// form `dedup_by_key` takes with text keys, such as a URL). The key of each
/// item is computed once, by `key_fn`; an item is kept exactly when no
/// earlier item's key has the same text.
pub fn dedup_by_string_key<T, F>(items: Vec<T>, key_fn: F) -> (r: Vec<T>)
    where
        F: Fn(&T) -> String,
    requires
        forall|i: int| 0 <= i < items@.len() ==> call_requires(key_fn, (&items@[i],)),
    ensures
        exists|keys: Seq<String>|
            {
                &&& keys.len() == items@.len()
                &&& forall|i: int| 0 <= i < keys.len() ==> call_ensures(key_fn, (&items@[i],), #[trigger] keys[i])
                &&& r@ == first_by_key(items@, strings_view(keys))
            },
{
    let mut seen = fx_strings_with_capacity(items.len());
    let mut out: Vec<T> = Vec::new();
    let ghost mut keys: Seq<String> = Seq::empty();
    let ghost all = items@;
    let n = items.len();
    for item in it: items
        invariant
            it.seq() == all,
            n == all.len(),
            forall|i: int| 0 <= i < all.len() ==> call_requires(key_fn, (&all[i],)),
            keys.len() == it.index(),
            forall|i: int| 0 <= i < keys.len() ==> call_ensures(key_fn, (&all[i],), #[trigger] keys[i]),
            out@ == first_by_key(all.take(it.index() as int), strings_view(keys)),
            fx_string_set(seen) == strings_view(keys).to_set(),
    {
        let ghost i = it.index() as int;
        assert(item == all[i]);
        let k = key_fn(&item);
        let ghost keys0 = keys;
        proof {
            keys = keys.push(k);
            let sv = strings_view(keys);
            assert(sv.take(i) =~= strings_view(keys0));
            assert(sv.take(i + 1) =~= sv);
            assert(sv[i] == k@);
            assert(all.take(i + 1).drop_last() =~= all.take(i));
            assert(all.take(i + 1).last() == item);
            lemma_take_push_to_set(sv, i);
        }
        let fresh = fx_strings_insert(&mut seen, k);
        if fresh {
            out.push(item);
        }
    }
    proof {
        assert(all.take(n as int) =~= all);
    }
    out
}

/// Removes items whose key was already seen, preserving order.
///
/// The key of each item is computed once, by `key_fn`. When `K`'s equality
/// and hashing agree, the result keeps exactly the items whose key did not
/// occur earlier.
pub fn dedup_by_key<T, K, F>(items: Vec<T>, key_fn: F) -> (r: Vec<T>)
    where
        K: Eq + Hash,
        F: Fn(&T) -> K,
    requires
        forall|i: int| 0 <= i < items@.len() ==> call_requires(key_fn, (&items@[i],)),
    ensures
        r@.len() <= items@.len(),
        obeys_key_model::<K>() ==> exists|keys: Seq<K>|
            {
                &&& keys.len() == items@.len()
                &&& forall|i: int| 0 <= i < keys.len() ==> call_ensures(key_fn, (&items@[i],), #[trigger] keys[i])
                &&& r@ == first_by_key(items@, keys)
            },
{
    let mut seen = fx_keys_with_capacity::<K>(items.len());
    let mut out: Vec<T> = Vec::new();
    let ghost mut keys: Seq<K> = Seq::empty();
    let ghost all = items@;
    let n = items.len();
    for item in it: items
        invariant
            it.seq() == all,
            n == all.len(),
            forall|i: int| 0 <= i < all.len() ==> call_requires(key_fn, (&all[i],)),
            keys.len() == it.index(),
            forall|i: int| 0 <= i < keys.len() ==> call_ensures(key_fn, (&all[i],), #[trigger] keys[i]),
            out@.len() <= it.index(),
            obeys_key_model::<K>() ==> out@ == first_by_key(all.take(it.index() as int), keys),
            obeys_key_model::<K>() ==> seen@ == keys.to_set(),
    {
        let ghost i = it.index() as int;
        assert(item == all[i]);
        let k = key_fn(&item);
        let ghost keys0 = keys;
        proof {
            keys = keys.push(k);
            assert(keys.take(i) =~= keys0);
            assert(keys.take(i + 1) =~= keys);
            assert(all.take(i + 1).drop_last() =~= all.take(i));
            assert(all.take(i + 1).last() == item);
            assert(keys0.push(k).take(i) =~= keys0);
            lemma_take_push_to_set(keys, i);
        }
        let fresh = fx_keys_insert(&mut seen, k);
        if fresh {
            out.push(item);
        }
    }
    proof {
        assert(all.take(n as int) =~= all);
    }
    out
}

} // verus!
