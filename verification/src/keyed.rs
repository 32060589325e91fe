//! Lists of `(key, value)` pairs with distinct keys, used as maps from text
//! keys: a later value for a key replaces the earlier one.
use vstd::prelude::*;
use crate::roles::str_eq;
use crate::schedule::lookup;

verus! {

/// No key occurs twice.
pub open spec fn keys_distinct<V>(s: Seq<(String, V)>) -> bool {
    forall|i: int, j: int| 0 <= i < j < s.len() ==> (#[trigger] s[i]).0@ != (#[trigger] s[j]).0@
}

/// The key occurs.
pub open spec fn has_key<V>(s: Seq<(String, V)>, k: Seq<char>) -> bool {
    exists|j: int| 0 <= j < s.len() && (#[trigger] s[j]).0@ == k
}

/// The value held under `k`, if the key occurs.
pub open spec fn value_of<V>(s: Seq<(String, V)>, k: Seq<char>) -> Option<V> {
    if has_key(s, k) {
        Some(s[choose|j: int| 0 <= j < s.len() && (#[trigger] s[j]).0@ == k].1)
    } else {
        None
    }
}

/// With distinct keys, the value under a key is the one at its position.
pub proof fn lemma_value_at<V>(s: Seq<(String, V)>, j: int)
    requires
        keys_distinct(s),
        0 <= j < s.len(),
    ensures
        value_of(s, s[j].0@) == Some(s[j].1),
{
    let k = s[j].0@;
    assert(has_key(s, k));
    let c = choose|c: int| 0 <= c < s.len() && (#[trigger] s[c]).0@ == k;
    if c != j {
        if c < j {
            assert(s[c].0@ != s[j].0@);
        } else {
            assert(s[j].0@ != s[c].0@);
        }
    }
}

/// With distinct keys, the first entry for a key is its only one.
pub proof fn lemma_value_of_lookup<V>(s: Seq<(String, V)>, k: Seq<char>)
    requires
        keys_distinct(s),
    ensures
        value_of(s, k) == lookup(s, k),
    decreases s.len(),
{
    if s.len() > 0 {
        let t = s.drop_first();
        assert(keys_distinct(t)) by {
            assert forall|i: int, j: int| 0 <= i < j < t.len() implies (#[trigger] t[i]).0@ != (#[trigger] t[j]).0@ by {
                assert(t[i] == s[i + 1] && t[j] == s[j + 1]);
            }
        }
        lemma_value_of_lookup(t, k);
        if s[0].0@ == k {
            lemma_value_at(s, 0);
        } else {
            if has_key(s, k) {
                let j = choose|j: int| 0 <= j < s.len() && (#[trigger] s[j]).0@ == k;
                assert(t[j - 1] == s[j]);
                lemma_value_at(s, j);
                lemma_value_at(t, j - 1);
            } else if has_key(t, k) {
                let j = choose|j: int| 0 <= j < t.len() && (#[trigger] t[j]).0@ == k;
                assert(s[j + 1] == t[j]);
            }
        }
    }
}

/// Puts `value` under `key`, replacing the value the key held.
pub fn put<V>(r: &mut Vec<(String, V)>, key: String, value: V)
    requires
        keys_distinct(old(r)@),
    ensures
        keys_distinct(final(r)@),
        forall|k: Seq<char>| #[trigger] value_of(final(r)@, k) == if k == key@ { Some(value) } else { value_of(old(r)@, k) },
{
    let ghost s0 = r@;
    let ghost kv = key@;
    let mut p: usize = 0;
    while p < r.len()
        invariant
            p <= r@.len(),
            r@ == s0,
            kv == key@,
            forall|i: int| 0 <= i < p ==> (#[trigger] r@[i]).0@ != kv,
        ensures
            p <= r@.len(),
            r@ == s0,
            forall|i: int| 0 <= i < p ==> (#[trigger] r@[i]).0@ != kv,
            p < r@.len() ==> r@[p as int].0@ == kv,
        decreases r@.len() - p,
    {
        if str_eq(r[p].0.as_str(), key.as_str()) {
            break;
        }
        p += 1;
    }
    if p < r.len() {
        assert(r@[p as int].0@ == kv);
        r.set(p, (key, value));
        let ghost s1 = r@;
        assert(s1 == s0.update(p as int, s1[p as int]));
        assert(keys_distinct(s1)) by {
            assert forall|i: int, j: int| 0 <= i < j < s1.len() implies (#[trigger] s1[i]).0@ != (#[trigger] s1[j]).0@ by {
                if i == p {
                    assert(s0[j].0@ != s0[p as int].0@);
                } else if j == p {
                    assert(s0[i].0@ != s0[p as int].0@);
                } else {
                    assert(s0[i] == s1[i] && s0[j] == s1[j]);
                }
            }
        }
        assert forall|k: Seq<char>| #[trigger] value_of(s1, k) == if k == kv { Some(value) } else { value_of(s0, k) } by {
            lemma_value_at(s1, p as int);
            if k != kv {
                if has_key(s0, k) {
                    let j = choose|j: int| 0 <= j < s0.len() && (#[trigger] s0[j]).0@ == k;
                    assert(j != p);
                    assert(s1[j] == s0[j]);
                    lemma_value_at(s0, j);
                    lemma_value_at(s1, j);
                } else if has_key(s1, k) {
                    let j = choose|j: int| 0 <= j < s1.len() && (#[trigger] s1[j]).0@ == k;
                    assert(j != p);
                    assert(s0[j] == s1[j]);
                }
            }
        }
    } else {
        r.push((key, value));
        let ghost s1 = r@;
        let ghost n = s0.len() as int;
        assert(keys_distinct(s1)) by {
            assert forall|i: int, j: int| 0 <= i < j < s1.len() implies (#[trigger] s1[i]).0@ != (#[trigger] s1[j]).0@ by {
                if j == n {
                    assert(s1[i] == s0[i]);
                } else {
                    assert(s0[i] == s1[i] && s0[j] == s1[j]);
                }
            }
        }
        assert forall|k: Seq<char>| #[trigger] value_of(s1, k) == if k == kv { Some(value) } else { value_of(s0, k) } by {
            lemma_value_at(s1, n);
            if k != kv {
                if has_key(s0, k) {
                    let j = choose|j: int| 0 <= j < s0.len() && (#[trigger] s0[j]).0@ == k;
                    assert(s1[j] == s0[j]);
                    lemma_value_at(s0, j);
                    lemma_value_at(s1, j);
                } else if has_key(s1, k) {
                    let j = choose|j: int| 0 <= j < s1.len() && (#[trigger] s1[j]).0@ == k;
                    assert(j != n);
                    assert(s0[j] == s1[j]);
                }
            }
        }
    }
}

/// Puts `value` under `key` unless the key already holds a value.
pub fn put_if_absent<V>(r: &mut Vec<(String, V)>, key: String, value: V)
    requires
        keys_distinct(old(r)@),
    ensures
        keys_distinct(final(r)@),
        forall|k: Seq<char>| #[trigger] value_of(final(r)@, k) == if k == key@ && !has_key(old(r)@, k) { Some(value) } else { value_of(old(r)@, k) },
{
    let ghost s0 = r@;
    let ghost kv = key@;
    let mut found = false;
    for i in 0..r.len()
        invariant
            r@ == s0,
            kv == key@,
            found <==> exists|j: int| 0 <= j < i && (#[trigger] s0[j]).0@ == kv,
    {
        if str_eq(r[i].0.as_str(), key.as_str()) {
            found = true;
        }
    }
    if !found {
        put(r, key, value);
    }
}

} // verus!
