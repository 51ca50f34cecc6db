//! String-keyed association lists with unique keys, shared by payloads,
//! named-vector tables and field-index registries.

use vstd::prelude::*;

verus! {

/// Keys (compared as character sequences) are pairwise distinct.
pub open spec fn assoc_keys_unique<V>(s: Seq<(String, V)>) -> bool {
    forall|i: int, j: int| 0 <= i < j < s.len() ==> s[i].0@ != s[j].0@
}

/// Value stored under `key`, if any (first match).
pub open spec fn assoc_get<V>(s: Seq<(String, V)>, key: Seq<char>) -> Option<V>
    decreases s.len(),
{
    if s.len() == 0 {
        None
    } else if s[0].0@ == key {
        Some(s[0].1)
    } else {
        assoc_get(s.subrange(1, s.len() as int), key)
    }
}

/// The index `assoc_get` finds, if any.
pub open spec fn assoc_index_of<V>(s: Seq<(String, V)>, key: Seq<char>) -> Option<int>
    decreases s.len(),
{
    if s.len() == 0 {
        None
    } else if s[0].0@ == key {
        Some(0)
    } else {
        match assoc_index_of(s.subrange(1, s.len() as int), key) {
            Some(i) => Some(i + 1),
            None => None,
        }
    }
}

pub proof fn lemma_assoc_index_of<V>(s: Seq<(String, V)>, key: Seq<char>)
    ensures
        match assoc_index_of(s, key) {
            Some(i) => {
                &&& 0 <= i < s.len()
                &&& s[i].0@ == key
                &&& assoc_get(s, key) == Some(s[i].1)
                &&& forall|j: int| 0 <= j < i ==> (#[trigger] s[j]).0@ != key
            },
            None => {
                &&& assoc_get(s, key) is None
                &&& forall|j: int| 0 <= j < s.len() ==> (#[trigger] s[j]).0@ != key
            },
        },
    decreases s.len(),
{
    if s.len() > 0 {
        let t = s.subrange(1, s.len() as int);
        lemma_assoc_index_of(t, key);
        if s[0].0@ == key {
        } else {
            match assoc_index_of(s, key) {
                Some(i) => {
                    assert forall|j: int| 0 <= j < i implies (#[trigger] s[j]).0@ != key by {
                        if j > 0 {
                            assert(s[j] == t[j - 1]);
                        }
                    }
                },
                None => {
                    assert forall|j: int| 0 <= j < s.len() implies (#[trigger] s[j]).0@
                        != key by {
                        if j > 0 {
                            assert(s[j] == t[j - 1]);
                        }
                    }
                },
            }
        }
    }
}

/// After replacing the value at the key's own index, that key maps to the
/// new value and every other key is untouched.
pub proof fn lemma_assoc_update<V>(s: Seq<(String, V)>, k: int, pair: (String, V))
    requires
        0 <= k < s.len(),
        pair.0@ == s[k].0@,
        assoc_keys_unique(s),
    ensures
        assoc_keys_unique(s.update(k, pair)),
        assoc_get(s.update(k, pair), pair.0@) == Some(pair.1),
        forall|key2: Seq<char>|
            key2 != pair.0@ ==> #[trigger] assoc_get(s.update(k, pair), key2) == assoc_get(
                s,
                key2,
            ),
    decreases s.len(),
{
    let s1 = s.update(k, pair);
    assert(assoc_keys_unique(s1)) by {
        assert(forall|i: int| 0 <= i < s.len() ==> (#[trigger] s1[i]).0@ == s[i].0@);
    }
    lemma_assoc_index_of(s, pair.0@);
    lemma_assoc_index_of(s1, pair.0@);
    assert(assoc_index_of(s, pair.0@) == Some(k)) by {
        match assoc_index_of(s, pair.0@) {
            Some(i) => {
                if i != k {
                    assert(s[i].0@ == s[k].0@);
                }
            },
            None => {
                assert(s[k].0@ != pair.0@);
            },
        }
    }
    assert(assoc_get(s1, pair.0@) == Some(pair.1)) by {
        match assoc_index_of(s1, pair.0@) {
            Some(i) => {
                if i != k {
                    assert(s1[i].0@ == s1[k].0@);
                }
            },
            None => {
                assert(s1[k].0@ != pair.0@);
            },
        }
    }
    assert forall|key2: Seq<char>| key2 != pair.0@ implies #[trigger] assoc_get(s1, key2)
        == assoc_get(s, key2) by {
        lemma_assoc_get_skip_index(s, s1, k, key2);
    }
}

/// Two lists that agree everywhere except index `k`, whose key (in both) is
/// not `key2`, give the same lookup for `key2`.
proof fn lemma_assoc_get_skip_index<V>(s: Seq<(String, V)>, s1: Seq<(String, V)>, k: int, key2: Seq<
    char,
>)
    requires
        s1.len() == s.len(),
        0 <= k < s.len(),
        forall|i: int| 0 <= i < s.len() && i != k ==> s1[i] == s[i],
        s[k].0@ != key2,
        s1[k].0@ != key2,
    ensures
        assoc_get(s1, key2) == assoc_get(s, key2),
    decreases s.len(),
{
    if s.len() > 0 {
        let t = s.subrange(1, s.len() as int);
        let t1 = s1.subrange(1, s1.len() as int);
        if k == 0 {
            assert(t1 =~= t);
        } else {
            assert(forall|i: int| 0 <= i < t.len() && i != k - 1 ==> t1[i] == t[i]);
            lemma_assoc_get_skip_index(t, t1, k - 1, key2);
        }
    }
}

/// Appending a pair whose key differs from `key2` does not change the
/// lookup of `key2`.
pub proof fn lemma_assoc_push_other<V>(s: Seq<(String, V)>, pair: (String, V), key2: Seq<char>)
    requires
        pair.0@ != key2,
    ensures
        assoc_get(s.push(pair), key2) == assoc_get(s, key2),
    decreases s.len(),
{
    let s1 = s.push(pair);
    if s.len() == 0 {
        assert(s1[0] == pair);
        assert(s1.subrange(1, 1) =~= Seq::<(String, V)>::empty());
        assert(assoc_get(s1, key2) == assoc_get(s1.subrange(1, 1), key2));
        assert(assoc_get(s1, key2) is None);
    } else {
        assert(s1[0] == s[0]);
        assert(s1.subrange(1, s1.len() as int) =~= s.subrange(1, s.len() as int).push(pair));
        lemma_assoc_push_other(s.subrange(1, s.len() as int), pair, key2);
        if s[0].0@ == key2 {
            assert(assoc_get(s1, key2) == Some(s1[0].1));
            assert(assoc_get(s, key2) == Some(s[0].1));
        } else {
            assert(assoc_get(s1, key2) == assoc_get(s1.subrange(1, s1.len() as int), key2));
            assert(assoc_get(s, key2) == assoc_get(s.subrange(1, s.len() as int), key2));
        }
    }
}

/// Appending a fresh key maps it to the new value and leaves the rest.
pub proof fn lemma_assoc_push<V>(s: Seq<(String, V)>, pair: (String, V))
    requires
        assoc_keys_unique(s),
        assoc_get(s, pair.0@) is None,
    ensures
        assoc_keys_unique(s.push(pair)),
        assoc_get(s.push(pair), pair.0@) == Some(pair.1),
        forall|key2: Seq<char>|
            key2 != pair.0@ ==> #[trigger] assoc_get(s.push(pair), key2) == assoc_get(s, key2),
    decreases s.len(),
{
    lemma_assoc_index_of(s, pair.0@);
    let s1 = s.push(pair);
    assert(assoc_keys_unique(s1)) by {
        assert(forall|i: int| 0 <= i < s.len() ==> (#[trigger] s1[i]) == s[i]);
        assert(s1[s.len() as int] == pair);
    }
    assert(assoc_get(s1, pair.0@) == Some(pair.1)) by {
        lemma_assoc_push_key(s, pair);
    }
    assert forall|key2: Seq<char>| key2 != pair.0@ implies #[trigger] assoc_get(s1, key2)
        == assoc_get(s, key2) by {
        lemma_assoc_push_other(s, pair, key2);
    }
}

proof fn lemma_assoc_push_key<V>(s: Seq<(String, V)>, pair: (String, V))
    requires
        assoc_get(s, pair.0@) is None,
    ensures
        assoc_get(s.push(pair), pair.0@) == Some(pair.1),
    decreases s.len(),
{
    let s1 = s.push(pair);
    if s.len() == 0 {
        assert(s1[0] == pair);
    } else {
        assert(s1[0] == s[0]);
        assert(s1.subrange(1, s1.len() as int) =~= s.subrange(1, s.len() as int).push(pair));
        lemma_assoc_push_key(s.subrange(1, s.len() as int), pair);
    }
}

/// Removing the key's own index removes the key and leaves the rest.
pub proof fn lemma_assoc_remove<V>(s: Seq<(String, V)>, k: int)
    requires
        0 <= k < s.len(),
        assoc_keys_unique(s),
    ensures
        assoc_keys_unique(s.remove(k)),
        assoc_get(s.remove(k), s[k].0@) is None,
        forall|key2: Seq<char>|
            key2 != s[k].0@ ==> #[trigger] assoc_get(s.remove(k), key2) == assoc_get(s, key2),
    decreases s.len(),
{
    let s1 = s.remove(k);
    s.remove_ensures(k);
    assert(assoc_keys_unique(s1)) by {
        assert(forall|i: int|
            0 <= i < s1.len() ==> (#[trigger] s1[i]) == s[
                if i < k {
                    i
                } else {
                    i + 1
                }
            ]);
    }
    if k == 0 {
        assert(s1 =~= s.subrange(1, s.len() as int));
        lemma_assoc_index_of(s1, s[0].0@);
        match assoc_index_of(s1, s[0].0@) {
            Some(i) => {
                assert(s1[i] == s[i + 1]);
                assert(s[0].0@ != s[i + 1].0@);
            },
            None => {},
        }
    } else {
        let t = s.subrange(1, s.len() as int);
        let t1 = s1.subrange(1, s1.len() as int);
        assert(t1 =~= t.remove(k - 1)) by {
            t.remove_ensures(k - 1);
            assert(forall|i: int|
                0 <= i < t1.len() ==> (#[trigger] t1[i]) == s1[i + 1] && s1[i + 1] == s[
                    if i + 1 < k {
                        i + 1
                    } else {
                        i + 2
                    }
                ]);
        }
        lemma_assoc_remove(t, k - 1);
        assert(t[k - 1] == s[k]);
        assert(s1[0] == s[0]);
        assert forall|key2: Seq<char>| key2 != s[k].0@ implies #[trigger] assoc_get(s1, key2)
            == assoc_get(s, key2) by {
            if s1[0].0@ == key2 {
            } else {
                assert(assoc_get(t1, key2) == assoc_get(t, key2));
            }
        }
        if s1[0].0@ == s[k].0@ {
            assert(s[0].0@ == s[k].0@);
        }
    }
}

/// Finds the index of a key in the list, by linear scan.
#[verifier::loop_isolation(false)]
pub fn assoc_find<V>(s: &Vec<(String, V)>, key: &String) -> (r: Option<usize>)
    ensures
        match r {
            Some(i) => i < s@.len() && s@[i as int].0@ == key@ && assoc_get(s@, key@) == Some(
                s@[i as int].1,
            ) && assoc_index_of(s@, key@) == Some(i as int),
            None => assoc_get(s@, key@) is None && assoc_index_of(s@, key@) is None,
        },
{
    proof {
        lemma_assoc_index_of(s@, key@);
    }
    let n = s.len();
    let mut k: usize = 0;
    proof {
        assert(s@.subrange(0, n as int) =~= s@);
    }
    while k < n
        invariant
            0 <= k <= n,
            forall|j: int| 0 <= j < k ==> (#[trigger] s@[j]).0@ != key@,
            assoc_index_of(s@, key@) == match assoc_index_of(
                s@.subrange(k as int, n as int),
                key@,
            ) {
                Some(i) => Some(i + k),
                None => None::<int>,
            },
        decreases n - k,
    {
        proof {
            assert(s@.subrange(k as int, n as int).subrange(1, (n - k) as int) =~= s@.subrange(
                k + 1,
                n as int,
            ));
        }
        if s[k].0 == *key {
            return Some(k);
        }
        k = k + 1;
    }
    None
}

} // verus!
