//! Association lists keyed by text: sequences of (key, value) entries read
//! as maps, where a key maps to the value of its last entry.

use vstd::prelude::*;

verus! {

/// The index of the last entry whose key is `k`, or -1.
pub open spec fn last_index<V>(s: Seq<(Seq<char>, V)>, k: Seq<char>) -> int
    decreases s.len(),
{
    if s.len() == 0 {
        -1
    } else if s.last().0 == k {
        s.len() - 1
    } else {
        last_index(s.drop_last(), k)
    }
}

/// The map that the entries stand for.
pub open spec fn assoc_map<V>(s: Seq<(Seq<char>, V)>) -> Map<Seq<char>, V> {
    Map::new(|k: Seq<char>| last_index(s, k) >= 0, |k: Seq<char>| s[last_index(s, k)].1)
}

/// No key occurs in two entries.
pub open spec fn keys_unique<V>(s: Seq<(Seq<char>, V)>) -> bool {
    forall|i: int, j: int| 0 <= i < s.len() && 0 <= j < s.len() && i != j ==> s[i].0 != s[j].0
}

pub proof fn lemma_last_index<V>(s: Seq<(Seq<char>, V)>, k: Seq<char>)
    ensures
        -1 <= last_index(s, k) < s.len(),
        last_index(s, k) >= 0 ==> s[last_index(s, k)].0 == k,
        forall|i: int| last_index(s, k) < i < s.len() ==> s[i].0 != k,
    decreases s.len(),
{
    if s.len() > 0 && s.last().0 != k {
        lemma_last_index(s.drop_last(), k);
        assert(forall|i: int| 0 <= i < s.len() - 1 ==> s.drop_last()[i] == s[i]);
    }
}

pub proof fn lemma_last_index_at<V>(s: Seq<(Seq<char>, V)>, k: Seq<char>, i: int)
    requires
        0 <= i < s.len(),
        s[i].0 == k,
        forall|j: int| i < j < s.len() ==> s[j].0 != k,
    ensures
        last_index(s, k) == i,
    decreases s.len(),
{
    if i < s.len() - 1 {
        lemma_last_index_at(s.drop_last(), k, i);
    }
}

/// In entries with unique keys, the entry holding a key is its only one.
pub proof fn lemma_unique_index<V>(s: Seq<(Seq<char>, V)>, k: Seq<char>, i: int)
    requires
        keys_unique(s),
        0 <= i < s.len(),
        s[i].0 == k,
    ensures
        last_index(s, k) == i,
{
    lemma_last_index_at(s, k, i);
}

pub proof fn lemma_push_map<V>(s: Seq<(Seq<char>, V)>, k: Seq<char>, v: V)
    ensures
        assoc_map(s.push((k, v))) == assoc_map(s).insert(k, v),
{
    let t = s.push((k, v));
    assert(t.drop_last() =~= s);
    assert forall|k2: Seq<char>| k2 != k implies #[trigger] last_index(t, k2) == last_index(s, k2)
        && (last_index(s, k2) >= 0 ==> t[last_index(s, k2)] == s[last_index(s, k2)]) by {
        lemma_last_index(s, k2);
    }
    assert(last_index(t, k) == s.len());
    assert(assoc_map(t) =~= assoc_map(s).insert(k, v));
}

pub proof fn lemma_update_map<V>(s: Seq<(Seq<char>, V)>, i: int, v: V)
    requires
        keys_unique(s),
        0 <= i < s.len(),
    ensures
        assoc_map(s.update(i, (s[i].0, v))) == assoc_map(s).insert(s[i].0, v),
        keys_unique(s.update(i, (s[i].0, v))),
{
    let k = s[i].0;
    let t = s.update(i, (k, v));
    assert forall|k2: Seq<char>| #[trigger] last_index(t, k2) == last_index(s, k2) by {
        lemma_last_index(s, k2);
        lemma_last_index(t, k2);
        if last_index(s, k2) >= 0 {
            lemma_last_index_at(t, k2, last_index(s, k2));
        } else if last_index(t, k2) >= 0 {
            assert(t[last_index(t, k2)].0 == s[last_index(t, k2)].0);
        }
    }
    assert forall|k2: Seq<char>| k2 != k && last_index(s, k2) >= 0 implies t[last_index(s, k2)]
        == s[last_index(s, k2)] by {
        lemma_last_index(s, k2);
    }
    lemma_unique_index(s, k, i);
    assert(assoc_map(t) =~= assoc_map(s).insert(k, v));
}

pub proof fn lemma_remove_map<V>(s: Seq<(Seq<char>, V)>, i: int)
    requires
        keys_unique(s),
        0 <= i < s.len(),
    ensures
        assoc_map(s.remove(i)) == assoc_map(s).remove(s[i].0),
        keys_unique(s.remove(i)),
{
    let k = s[i].0;
    let t = s.remove(i);
    assert(forall|j: int| 0 <= j < i ==> t[j] == s[j]);
    assert(forall|j: int| i <= j < t.len() ==> t[j] == s[j + 1]);
    assert forall|k2: Seq<char>| k2 != k implies ((last_index(t, k2) >= 0) == (last_index(s, k2) >= 0))
        && (last_index(t, k2) >= 0 ==> t[last_index(t, k2)].1 == s[last_index(s, k2)].1) by {
        lemma_last_index(s, k2);
        lemma_last_index(t, k2);
        let a = last_index(s, k2);
        if a >= 0 {
            if a < i {
                lemma_unique_index(t, k2, a);
            } else {
                lemma_unique_index(t, k2, a - 1);
            }
        } else if last_index(t, k2) >= 0 {
            let b = last_index(t, k2);
            if b < i {
                assert(s[b].0 == k2);
            } else {
                assert(s[b + 1].0 == k2);
            }
        }
    }
    assert forall|j: int| 0 <= j < t.len() implies t[j].0 != k by {
        if j < i {
            assert(s[j].0 != s[i].0);
        } else {
            assert(s[j + 1].0 != s[i].0);
        }
    }
    lemma_last_index(t, k);
    assert(assoc_map(t) =~= assoc_map(s).remove(k));
}

/// The index of the last entry with the key, if any.
pub fn find_key<V>(s: &Vec<(String, V)>, key: &str) -> (r: Option<usize>)
    ensures
        match r {
            Some(i) => i as int == last_index(key_view(s@), key@) && i < s.len(),
            None => last_index(key_view(s@), key@) == -1,
        },
{
    let ghost kv = key_view(s@);
    let mut i = s.len();
    while i > 0
        invariant
            i <= s.len(),
            kv == key_view(s@),
            forall|j: int| i <= j < s.len() ==> kv[j].0 != key@,
        decreases i,
    {
        if crate::json::str_eq(s[i - 1].0.as_str(), key) {
            proof {
                lemma_last_index_at(kv, key@, i - 1);
            }
            return Some(i - 1);
        }
        i = i - 1;
    }
    proof {
        lemma_last_index(kv, key@);
        if last_index(kv, key@) >= 0 {
            assert(kv[last_index(kv, key@)].0 == key@);
        }
    }
    None
}

/// The entries with each key taken by its view.
pub open spec fn key_view<V>(s: Seq<(String, V)>) -> Seq<(Seq<char>, V)> {
    Seq::new(s.len(), |i: int| (s[i].0@, s[i].1))
}

/// Two entry lists with the same keys in the same places agree on where a
/// key last occurs.
pub proof fn lemma_last_index_same_keys<A, B>(
    s: Seq<(Seq<char>, A)>,
    t: Seq<(Seq<char>, B)>,
    k: Seq<char>,
)
    requires
        s.len() == t.len(),
        forall|i: int| 0 <= i < s.len() ==> s[i].0 == t[i].0,
    ensures
        last_index(s, k) == last_index(t, k),
    decreases s.len(),
{
    if s.len() > 0 {
        lemma_last_index_same_keys(s.drop_last(), t.drop_last(), k);
    }
}

/// The value of the last entry with the key.
pub open spec fn lookup<V>(s: Seq<(Seq<char>, V)>, k: Seq<char>) -> Option<V> {
    if last_index(s, k) >= 0 {
        Some(s[last_index(s, k)].1)
    } else {
        None
    }
}

} // verus!
