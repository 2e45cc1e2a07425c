//! Maps keyed by text, kept as vectors of (key, value) pairs in strictly
//! increasing key order: the order in which std's `BTreeMap<String, _>` walks
//! its entries.
//!
//! A snapshot is stored as these vectors rather than as `BTreeMap<String, _>`
//! and `BTreeSet<String>`: vstd specifies std's ordered maps and sets only
//! for keys whose order it models, which text keys are not, so nothing could
//! be proved of what such a map holds after an insert or in what order it is
//! walked. Here both are stated (`assoc_insert`, `keys_sorted`) and proved of
//! the code that keeps them.

use vstd::prelude::*;

use crate::text::{lemma_text_order, text_eq, text_less, text_lt};

verus! {

/// Keys strictly increase along `s`.
pub open spec fn keys_sorted<V>(s: Seq<(Seq<char>, V)>) -> bool {
    forall|i: int, j: int| 0 <= i < j < s.len() ==> text_lt(#[trigger] s[i].0, #[trigger] s[j].0)
}

/// The value stored under `k`.
pub open spec fn assoc_get<V>(s: Seq<(Seq<char>, V)>, k: Seq<char>) -> Option<V>
    decreases s.len(),
{
    if s.len() == 0 {
        None
    } else if s[0].0 == k {
        Some(s[0].1)
    } else {
        assoc_get(s.drop_first(), k)
    }
}

/// `s` with `k` mapped to `v`: the entry is replaced if present, else inserted in key order.
pub open spec fn assoc_insert<V>(s: Seq<(Seq<char>, V)>, k: Seq<char>, v: V) -> Seq<(Seq<char>, V)>
    decreases s.len(),
{
    if s.len() == 0 {
        seq![(k, v)]
    } else if s[0].0 == k {
        seq![(k, v)] + s.drop_first()
    } else if text_lt(k, s[0].0) {
        seq![(k, v)] + s
    } else {
        seq![s[0]] + assoc_insert(s.drop_first(), k, v)
    }
}

/// Where `k` is or would go in `s`: `Ok(i)` when `s[i]` has key `k`, `Err(i)`
/// when every key before `i` is smaller and every key from `i` on is larger.
pub open spec fn is_position<V>(s: Seq<(Seq<char>, V)>, k: Seq<char>, r: Result<usize, usize>) -> bool {
    match r {
        Ok(i) => i < s.len() && s[i as int].0 == k,
        Err(i) => {
            &&& i <= s.len()
            &&& forall|j: int| 0 <= j < i ==> text_lt(#[trigger] s[j].0, k)
            &&& forall|j: int| i <= j < s.len() ==> text_lt(k, #[trigger] s[j].0)
        },
    }
}

pub proof fn lemma_sorted_drop_first<V>(s: Seq<(Seq<char>, V)>)
    requires
        keys_sorted(s),
        s.len() > 0,
    ensures
        keys_sorted(s.drop_first()),
{
    assert forall|i: int, j: int| 0 <= i < j < s.drop_first().len() implies text_lt(
        #[trigger] s.drop_first()[i].0,
        #[trigger] s.drop_first()[j].0,
    ) by {
        assert(s.drop_first()[i] == s[i + 1]);
        assert(s.drop_first()[j] == s[j + 1]);
    }
}

/// In a sorted list, the value under the key of entry `i` is that entry's value.
pub proof fn lemma_get_at<V>(s: Seq<(Seq<char>, V)>, i: int)
    requires
        keys_sorted(s),
        0 <= i < s.len(),
    ensures
        assoc_get(s, s[i].0) == Some(s[i].1),
    decreases i,
{
    if i > 0 {
        lemma_text_order(s[0].0, s[i].0, s[i].0);
        lemma_sorted_drop_first(s);
        lemma_get_at(s.drop_first(), i - 1);
        assert(s.drop_first()[i - 1] == s[i]);
    }
}

/// A key that no entry has is absent.
pub proof fn lemma_get_absent<V>(s: Seq<(Seq<char>, V)>, k: Seq<char>)
    requires
        forall|j: int| 0 <= j < s.len() ==> #[trigger] s[j].0 != k,
    ensures
        assoc_get(s, k) is None,
    decreases s.len(),
{
    if s.len() > 0 {
        assert forall|j: int| 0 <= j < s.drop_first().len() implies #[trigger] s.drop_first()[j].0
            != k by {
            assert(s.drop_first()[j] == s[j + 1]);
        }
        lemma_get_absent(s.drop_first(), k);
    }
}

/// A key that is present belongs to some entry.
pub proof fn lemma_get_some<V>(s: Seq<(Seq<char>, V)>, k: Seq<char>)
    requires
        assoc_get(s, k) is Some,
    ensures
        exists|j: int| 0 <= j < s.len() && #[trigger] s[j].0 == k && s[j].1 == assoc_get(s, k).unwrap(),
    decreases s.len(),
{
    if s[0].0 != k {
        lemma_get_some(s.drop_first(), k);
        let j = choose|j: int|
            0 <= j < s.drop_first().len() && #[trigger] s.drop_first()[j].0 == k && s.drop_first()[j].1
                == assoc_get(s.drop_first(), k).unwrap();
        assert(s[j + 1] == s.drop_first()[j]);
    } else {
        assert(s[0].0 == k);
    }
}

/// What insertion at a located position is, in terms of `update` and `insert`.
pub proof fn lemma_insert_at<V>(s: Seq<(Seq<char>, V)>, k: Seq<char>, v: V, r: Result<usize, usize>)
    requires
        keys_sorted(s),
        is_position(s, k, r),
    ensures
        assoc_insert(s, k, v) == (match r {
            Ok(i) => s.update(i as int, (k, v)),
            Err(i) => s.insert(i as int, (k, v)),
        }),
        keys_sorted(assoc_insert(s, k, v)),
        assoc_get(s, k) == (match r {
            Ok(i) => Some(s[i as int].1),
            Err(i) => None::<V>,
        }),
    decreases s.len(),
{
    match r {
        Ok(i) => {
            lemma_get_at(s, i as int);
            if i == 0 {
                assert(assoc_insert(s, k, v) =~= s.update(0, (k, v)));
                assert forall|a: int, b: int|
                    0 <= a < b < s.update(0, (k, v)).len() implies text_lt(
                    #[trigger] s.update(0, (k, v))[a].0,
                    #[trigger] s.update(0, (k, v))[b].0,
                ) by {
                    assert(s.update(0, (k, v))[a].0 == s[a].0);
                    assert(s.update(0, (k, v))[b].0 == s[b].0);
                }
            } else {
                lemma_text_order(s[0].0, k, k);
                lemma_sorted_drop_first(s);
                let r2: Result<usize, usize> = Ok((i - 1) as usize);
                assert(s.drop_first()[i - 1] == s[i as int]);
                lemma_insert_at(s.drop_first(), k, v, r2);
                assert(assoc_insert(s, k, v) =~= s.update(i as int, (k, v)));
                let t = s.update(i as int, (k, v));
                assert forall|a: int, b: int| 0 <= a < b < t.len() implies text_lt(
                    #[trigger] t[a].0,
                    #[trigger] t[b].0,
                ) by {
                    assert(t[a].0 == s[a].0);
                    assert(t[b].0 == s[b].0);
                }
            }
        },
        Err(i) => {
            assert forall|j: int| 0 <= j < s.len() implies #[trigger] s[j].0 != k by {
                lemma_text_order(s[j].0, k, k);
                lemma_text_order(k, s[j].0, k);
            }
            lemma_get_absent(s, k);
            let t = s.insert(i as int, (k, v));
            if i == 0 {
                if s.len() == 0 {
                    assert(assoc_insert(s, k, v) =~= t);
                } else {
                    lemma_text_order(k, s[0].0, k);
                    assert(assoc_insert(s, k, v) =~= t);
                }
            } else {
                lemma_text_order(s[0].0, k, k);
                lemma_sorted_drop_first(s);
                let r2: Result<usize, usize> = Err((i - 1) as usize);
                assert forall|j: int| 0 <= j < i - 1 implies text_lt(#[trigger] s.drop_first()[j].0, k) by {
                    assert(s.drop_first()[j] == s[j + 1]);
                }
                assert forall|j: int| i - 1 <= j < s.drop_first().len() implies text_lt(
                    k,
                    #[trigger] s.drop_first()[j].0,
                ) by {
                    assert(s.drop_first()[j] == s[j + 1]);
                }
                lemma_insert_at(s.drop_first(), k, v, r2);
                assert(assoc_insert(s, k, v) =~= t);
            }
            assert forall|a: int, b: int| 0 <= a < b < t.len() implies text_lt(
                #[trigger] t[a].0,
                #[trigger] t[b].0,
            ) by {
                if b < i {
                    assert(t[a] == s[a] && t[b] == s[b]);
                } else if b == i {
                    assert(t[a] == s[a]);
                } else if a == i {
                    assert(t[b] == s[b - 1]);
                } else if a < i {
                    assert(t[a] == s[a] && t[b] == s[b - 1]);
                    lemma_text_order(s[a].0, k, s[b - 1].0);
                } else {
                    assert(t[a] == s[a - 1] && t[b] == s[b - 1]);
                }
            }
        },
    }
}

/// Every entry of an insertion result is the inserted one or an old one.
pub proof fn lemma_insert_entries<V>(s: Seq<(Seq<char>, V)>, k: Seq<char>, v: V)
    ensures
        forall|i: int|
            0 <= i < assoc_insert(s, k, v).len() ==> #[trigger] assoc_insert(s, k, v)[i] == (k, v)
                || exists|j: int| 0 <= j < s.len() && s[j] == assoc_insert(s, k, v)[i],
    decreases s.len(),
{
    if s.len() > 0 && s[0].0 != k && !text_lt(k, s[0].0) {
        lemma_insert_entries(s.drop_first(), k, v);
        let t = assoc_insert(s, k, v);
        assert forall|i: int| 0 <= i < t.len() implies #[trigger] t[i] == (k, v) || exists|j: int|
            0 <= j < s.len() && s[j] == t[i] by {
            if i == 0 {
                assert(s[0] == t[0]);
            } else {
                let r = assoc_insert(s.drop_first(), k, v);
                assert(t[i] == r[i - 1]);
                if r[i - 1] != (k, v) {
                    let j = choose|j: int| 0 <= j < s.drop_first().len() && s.drop_first()[j] == r[i - 1];
                    assert(s[j + 1] == t[i]);
                }
            }
        }
    } else if s.len() > 0 && s[0].0 == k {
        let t = assoc_insert(s, k, v);
        assert forall|i: int| 0 <= i < t.len() implies #[trigger] t[i] == (k, v) || exists|j: int|
            0 <= j < s.len() && s[j] == t[i] by {
            if i > 0 {
                assert(s[i] == t[i]);
            }
        }
    } else if s.len() > 0 {
        let t = assoc_insert(s, k, v);
        assert forall|i: int| 0 <= i < t.len() implies #[trigger] t[i] == (k, v) || exists|j: int|
            0 <= j < s.len() && s[j] == t[i] by {
            if i > 0 {
                assert(s[i - 1] == t[i]);
            }
        }
    }
}

/// Insertion keeps keys sorted.
pub proof fn lemma_insert_sorted<V>(s: Seq<(Seq<char>, V)>, k: Seq<char>, v: V)
    requires
        keys_sorted(s),
    ensures
        keys_sorted(assoc_insert(s, k, v)),
    decreases s.len(),
{
    let t = assoc_insert(s, k, v);
    if s.len() == 0 {
    } else if s[0].0 == k {
        assert forall|a: int, b: int| 0 <= a < b < t.len() implies text_lt(
            #[trigger] t[a].0,
            #[trigger] t[b].0,
        ) by {
            assert(t[a].0 == s[a].0 && t[b].0 == s[b].0);
        }
    } else if text_lt(k, s[0].0) {
        assert forall|a: int, b: int| 0 <= a < b < t.len() implies text_lt(
            #[trigger] t[a].0,
            #[trigger] t[b].0,
        ) by {
            if a == 0 {
                assert(t[b] == s[b - 1]);
                if b > 1 {
                    lemma_text_order(k, s[0].0, s[b - 1].0);
                }
            } else {
                assert(t[a] == s[a - 1] && t[b] == s[b - 1]);
            }
        }
    } else {
        lemma_text_order(s[0].0, k, k);
        lemma_sorted_drop_first(s);
        lemma_insert_sorted(s.drop_first(), k, v);
        lemma_insert_entries(s.drop_first(), k, v);
        let r = assoc_insert(s.drop_first(), k, v);
        assert forall|a: int, b: int| 0 <= a < b < t.len() implies text_lt(
            #[trigger] t[a].0,
            #[trigger] t[b].0,
        ) by {
            assert(t[b] == r[b - 1]);
            if a == 0 {
                assert(t[0] == s[0]);
                if r[b - 1] != (k, v) {
                    let j = choose|j: int| 0 <= j < s.drop_first().len() && s.drop_first()[j] == r[b - 1];
                    assert(s[j + 1] == r[b - 1]);
                }
            } else {
                assert(t[a] == r[a - 1]);
            }
        }
    }
}


/// Whether some entry of `s` has the key `k`.
pub open spec fn has_key<V>(s: Seq<(Seq<char>, V)>, k: Seq<char>) -> bool {
    exists|i: int| 0 <= i < s.len() && #[trigger] s[i].0 == k
}

/// After an insertion the inserted key and every old key are present, and no other.
pub proof fn lemma_insert_keys<V>(s: Seq<(Seq<char>, V)>, k: Seq<char>, v: V, x: Seq<char>)
    ensures
        has_key(assoc_insert(s, k, v), x) <==> (x == k || has_key(s, x)),
    decreases s.len(),
{
    let t = assoc_insert(s, k, v);
    lemma_insert_entries(s, k, v);
    if has_key(t, x) {
        let i = choose|i: int| 0 <= i < t.len() && #[trigger] t[i].0 == x;
        if t[i] != (k, v) {
            let j = choose|j: int| 0 <= j < s.len() && s[j] == t[i];
            assert(s[j].0 == x);
        }
    }
    if s.len() == 0 {
        if x == k {
            assert(t[0].0 == k);
        }
    } else if s[0].0 == k {
        if x == k {
            assert(t[0].0 == k);
        } else if has_key(s, x) {
            let j = choose|j: int| 0 <= j < s.len() && #[trigger] s[j].0 == x;
            assert(t[j].0 == x);
        }
    } else if text_lt(k, s[0].0) {
        if x == k {
            assert(t[0].0 == k);
        } else if has_key(s, x) {
            let j = choose|j: int| 0 <= j < s.len() && #[trigger] s[j].0 == x;
            assert(t[j + 1].0 == x);
        }
    } else {
        let d = s.drop_first();
        lemma_insert_keys(d, k, v, x);
        let u = assoc_insert(d, k, v);
        if x == s[0].0 {
            assert(t[0].0 == x);
        } else if x == k || has_key(s, x) {
            if x != k {
                let j = choose|j: int| 0 <= j < s.len() && #[trigger] s[j].0 == x;
                assert(j > 0);
                assert(d[j - 1].0 == x);
            }
            assert(has_key(u, x));
            let i = choose|i: int| 0 <= i < u.len() && #[trigger] u[i].0 == x;
            assert(t[i + 1].0 == x);
        }
    }
}

/// Two lists with keys in strictly increasing order, unit values and the same
/// keys are equal.
pub proof fn lemma_sorted_keys_unique(a: Seq<(Seq<char>, ())>, b: Seq<(Seq<char>, ())>)
    requires
        keys_sorted(a),
        keys_sorted(b),
        forall|x: Seq<char>| has_key(a, x) <==> has_key(b, x),
    ensures
        a == b,
    decreases a.len(),
{
    if a.len() == 0 {
        if b.len() > 0 {
            assert(has_key(b, b[0].0));
        }
        assert(a =~= b);
    } else {
        assert(has_key(a, a[0].0));
        let j = choose|j: int| 0 <= j < b.len() && #[trigger] b[j].0 == a[0].0;
        assert(has_key(b, b[0].0));
        let i = choose|i: int| 0 <= i < a.len() && #[trigger] a[i].0 == b[0].0;
        if a[0].0 != b[0].0 {
            assert(i > 0 && j > 0);
            assert(text_lt(a[0].0, a[i].0));
            assert(text_lt(b[0].0, b[j].0));
            lemma_text_order(a[0].0, b[0].0, a[0].0);
        }
        let a1 = a.drop_first();
        let b1 = b.drop_first();
        lemma_sorted_drop_first(a);
        lemma_sorted_drop_first(b);
        assert forall|x: Seq<char>| has_key(a1, x) <==> has_key(b1, x) by {
            if has_key(a1, x) {
                let p = choose|p: int| 0 <= p < a1.len() && #[trigger] a1[p].0 == x;
                assert(a[p + 1].0 == x);
                assert(text_lt(a[0].0, x));
                lemma_text_order(a[0].0, x, x);
                assert(has_key(b, x));
                let q = choose|q: int| 0 <= q < b.len() && #[trigger] b[q].0 == x;
                assert(q > 0);
                assert(b1[q - 1].0 == x);
            }
            if has_key(b1, x) {
                let p = choose|p: int| 0 <= p < b1.len() && #[trigger] b1[p].0 == x;
                assert(b[p + 1].0 == x);
                assert(text_lt(b[0].0, x));
                lemma_text_order(b[0].0, x, x);
                assert(has_key(a, x));
                let q = choose|q: int| 0 <= q < a.len() && #[trigger] a[q].0 == x;
                assert(q > 0);
                assert(a1[q - 1].0 == x);
            }
        }
        lemma_sorted_keys_unique(a1, b1);
        assert(a[0] == b[0]);
        assert(a =~= seq![a[0]] + a1);
        assert(b =~= seq![b[0]] + b1);
    }
}

/// Locates `key` in a sorted list.
pub fn locate<V: DeepView>(entries: &Vec<(String, V)>, key: &str) -> (r: Result<usize, usize>)
    requires
        keys_sorted(entries.deep_view()),
    ensures
        is_position(entries.deep_view(), key@, r),
{
    let ghost s = entries.deep_view();
    let n = entries.len();
    for j in 0..n
        invariant
            n == s.len(),
            s == entries.deep_view(),
            keys_sorted(s),
            forall|a: int| 0 <= a < j ==> text_lt(#[trigger] s[a].0, key@),
    {
        assert(s[j as int].0 == entries[j as int].0@);
        if text_eq(entries[j].0.as_str(), key) {
            return Ok(j);
        }
        if text_less(key, entries[j].0.as_str()) {
            assert forall|a: int| j <= a < s.len() implies text_lt(key@, #[trigger] s[a].0) by {
                if a > j {
                    lemma_text_order(key@, s[j as int].0, s[a].0);
                }
            }
            return Err(j);
        }
        proof {
            lemma_text_order(key@, s[j as int].0, key@);
        }
    }
    Err(n)
}

/// The value stored under `key`.
pub fn get<'a, V: DeepView>(entries: &'a Vec<(String, V)>, key: &str) -> (r: Option<&'a V>)
    requires
        keys_sorted(entries.deep_view()),
    ensures
        r.deep_view() == assoc_get(entries.deep_view(), key@),
{
    let pos = locate(entries, key);
    proof {
        lemma_insert_at(entries.deep_view(), key@, arbitrary(), pos);
    }
    match pos {
        Ok(i) => Some(&entries[i].1),
        Err(_) => None,
    }
}

/// Maps `key` to `value`.
pub fn insert<V: DeepView>(entries: &mut Vec<(String, V)>, key: String, value: V)
    requires
        keys_sorted(old(entries).deep_view()),
    ensures
        final(entries).deep_view() == assoc_insert(old(entries).deep_view(), key@, value.deep_view()),
        keys_sorted(final(entries).deep_view()),
{
    let ghost s = entries.deep_view();
    let ghost kv = key@;
    let ghost vv = value.deep_view();
    let pos = locate(entries, key.as_str());
    proof {
        lemma_insert_at(s, kv, vv, pos);
    }
    match pos {
        Ok(i) => {
            entries.set(i, (key, value));
            assert(entries.deep_view() =~= s.update(i as int, (kv, vv)));
        },
        Err(i) => {
            entries.insert(i, (key, value));
            assert(entries.deep_view() =~= s.insert(i as int, (kv, vv)));
        },
    }
}

} // verus!
