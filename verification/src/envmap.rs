//! Ordered string maps (`IndexMap`), modelled as sequences of entries.
use indexmap::IndexMap;
use vstd::prelude::*;

verus! {

/// Declares `indexmap::IndexMap` to Verus as an opaque type: what a map holds
/// is known only through `env_entries` and `job_entries`.
#[verifier::external_type_specification]
#[verifier::external_body]
#[verifier::reject_recursive_types(K)]
#[verifier::reject_recursive_types(V)]
#[verifier::reject_recursive_types(S)]
pub struct ExIndexMap<K, V, S>(IndexMap<K, V, S>);

/// The entries of a string-to-string map, in the map's order.
pub uninterp spec fn env_entries(m: IndexMap<String, String>) -> Seq<(Seq<char>, Seq<char>)>;

/// The first index of an entry whose key is `k`.
pub open spec fn find_key<V>(e: Seq<(Seq<char>, V)>, k: Seq<char>) -> Option<int>
    decreases e.len(),
{
    if e.len() == 0 {
        None
    } else if e[0].0 == k {
        Some(0)
    } else {
        match find_key(e.drop_first(), k) {
            Some(i) => Some(i + 1),
            None => None,
        }
    }
}

/// The value stored for `k`.
pub open spec fn lookup<V>(e: Seq<(Seq<char>, V)>, k: Seq<char>) -> Option<V> {
    match find_key(e, k) {
        Some(i) => Some(e[i].1),
        None => None,
    }
}

/// What `IndexMap::insert` makes of the entries: an entry with the same key
/// keeps its place and takes the new value; otherwise the pair goes last.
pub open spec fn insert_entry<V>(e: Seq<(Seq<char>, V)>, k: Seq<char>, v: V) -> Seq<(Seq<char>, V)> {
    match find_key(e, k) {
        Some(i) => e.update(i, (k, v)),
        None => e.push((k, v)),
    }
}

/// The entries after inserting each pair of `adds` in turn.
pub open spec fn insert_all<V>(e: Seq<(Seq<char>, V)>, adds: Seq<(Seq<char>, V)>) -> Seq<
    (Seq<char>, V),
>
    decreases adds.len(),
{
    if adds.len() == 0 {
        e
    } else {
        insert_entry(insert_all(e, adds.drop_last()), adds.last().0, adds.last().1)
    }
}

/// The value of the last pair of `adds` whose key is `k`.
pub open spec fn last_value<V>(adds: Seq<(Seq<char>, V)>, k: Seq<char>) -> Option<V>
    decreases adds.len(),
{
    if adds.len() == 0 {
        None
    } else if adds.last().0 == k {
        Some(adds.last().1)
    } else {
        last_value(adds.drop_last(), k)
    }
}

/// Whether some entry has key `k`.
pub open spec fn has_key<V>(e: Seq<(Seq<char>, V)>, k: Seq<char>) -> bool {
    exists|j: int| 0 <= j < e.len() && (#[trigger] e[j]).0 == k
}

pub proof fn lemma_find_key<V>(e: Seq<(Seq<char>, V)>, k: Seq<char>)
    ensures
        find_key(e, k) matches Some(i) ==> 0 <= i < e.len() && e[i].0 == k && forall|j: int|
            0 <= j < i ==> (#[trigger] e[j]).0 != k,
        find_key(e, k) is None ==> forall|j: int| 0 <= j < e.len() ==> (#[trigger] e[j]).0 != k,
        find_key(e, k) is Some <==> has_key(e, k),
    decreases e.len(),
{
    if e.len() > 0 && e[0].0 != k {
        lemma_find_key(e.drop_first(), k);
        assert forall|j: int| 1 <= j < e.len() implies e[j] == e.drop_first()[j - 1] by {}
        if has_key(e, k) {
            let j = choose|j: int| 0 <= j < e.len() && (#[trigger] e[j]).0 == k;
            assert(e.drop_first()[j - 1].0 == k);
        }
    }
}

/// A key's position decides the lookup: the first entry with the key holds its value.
pub proof fn lemma_find_key_unique<V>(e: Seq<(Seq<char>, V)>, k: Seq<char>, i: int)
    requires
        0 <= i < e.len(),
        e[i].0 == k,
        forall|j: int| 0 <= j < i ==> (#[trigger] e[j]).0 != k,
    ensures
        find_key(e, k) == Some(i),
{
    lemma_find_key(e, k);
    if let Some(m) = find_key(e, k) {
        if m < i {
            assert(e[m].0 != k);
        } else if m > i {
            assert(e[i].0 != k);
        }
    }
}

/// A read after a write gives what was written; other keys keep their values.
pub proof fn lemma_lookup_insert<V>(e: Seq<(Seq<char>, V)>, k: Seq<char>, v: V, k2: Seq<char>)
    ensures
        lookup(insert_entry(e, k, v), k2) == if k2 == k {
            Some(v)
        } else {
            lookup(e, k2)
        },
        has_key(insert_entry(e, k, v), k2) == (k2 == k || has_key(e, k2)),
{
    let e2 = insert_entry(e, k, v);
    lemma_find_key(e, k);
    lemma_find_key(e, k2);
    lemma_find_key(e2, k2);
    match find_key(e, k) {
        Some(i) => {
            assert(e2.len() == e.len());
            if k2 == k {
                lemma_find_key_unique(e2, k2, i);
            } else {
                match find_key(e, k2) {
                    Some(i2) => {
                        assert(e2[i2] == e[i2]);
                        assert forall|j: int| 0 <= j < i2 implies (#[trigger] e2[j]).0 != k2 by {
                            if j != i {
                                assert(e2[j] == e[j]);
                            }
                        }
                        lemma_find_key_unique(e2, k2, i2);
                    },
                    None => {
                        assert forall|j: int| 0 <= j < e2.len() implies (#[trigger] e2[j]).0
                            != k2 by {
                            if j != i {
                                assert(e2[j] == e[j]);
                            }
                        }
                    },
                }
            }
            if has_key(e, k2) {
                let j = choose|j: int| 0 <= j < e.len() && (#[trigger] e[j]).0 == k2;
                if j != i {
                    assert(e2[j] == e[j]);
                }
            }
        },
        None => {
            assert(e2.len() == e.len() + 1);
            if k2 == k {
                lemma_find_key_unique(e2, k2, e.len() as int);
            } else {
                match find_key(e, k2) {
                    Some(i2) => {
                        assert(e2[i2] == e[i2]);
                        assert forall|j: int| 0 <= j < i2 implies (#[trigger] e2[j]).0 != k2 by {
                            assert(e2[j] == e[j]);
                        }
                        lemma_find_key_unique(e2, k2, i2);
                    },
                    None => {
                        assert forall|j: int| 0 <= j < e2.len() implies (#[trigger] e2[j]).0
                            != k2 by {
                            if j < e.len() {
                                assert(e2[j] == e[j]);
                            }
                        }
                    },
                }
            }
            if has_key(e, k2) {
                let j = choose|j: int| 0 <= j < e.len() && (#[trigger] e[j]).0 == k2;
                assert(e2[j] == e[j]);
            }
            if k2 == k {
                assert(e2[e.len() as int].0 == k2);
            }
        },
    }
}

/// After several inserts a key holds the value of its last insert, or its old value.
pub proof fn lemma_lookup_insert_all<V>(
    e: Seq<(Seq<char>, V)>,
    adds: Seq<(Seq<char>, V)>,
    k: Seq<char>,
)
    ensures
        lookup(insert_all(e, adds), k) == match last_value(adds, k) {
            Some(v) => Some(v),
            None => lookup(e, k),
        },
    decreases adds.len(),
{
    if adds.len() > 0 {
        lemma_lookup_insert_all(e, adds.drop_last(), k);
        lemma_lookup_insert(insert_all(e, adds.drop_last()), adds.last().0, adds.last().1, k);
    }
}

/// Inserting two runs of pairs is inserting their concatenation.
pub proof fn lemma_insert_all_concat<V>(
    e: Seq<(Seq<char>, V)>,
    a: Seq<(Seq<char>, V)>,
    b: Seq<(Seq<char>, V)>,
)
    ensures
        insert_all(e, a + b) == insert_all(insert_all(e, a), b),
    decreases b.len(),
{
    if b.len() == 0 {
        assert(a + b =~= a);
    } else {
        lemma_insert_all_concat(e, a, b.drop_last());
        assert((a + b).drop_last() =~= a + b.drop_last());
        assert((a + b).last() == b.last());
    }
}

/// Whether no two entries share a key, as in any `IndexMap`.
pub open spec fn keys_distinct<V>(e: Seq<(Seq<char>, V)>) -> bool {
    forall|i: int, j: int| 0 <= i < j < e.len() ==> (#[trigger] e[i]).0 != (#[trigger] e[j]).0
}

/// With distinct keys, the last entry for a key is the one a lookup finds.
pub proof fn lemma_last_value_distinct<V>(e: Seq<(Seq<char>, V)>, k: Seq<char>)
    requires
        keys_distinct(e),
    ensures
        last_value(e, k) == lookup(e, k),
    decreases e.len(),
{
    if e.len() > 0 {
        let d = e.drop_last();
        assert(keys_distinct(d)) by {
            assert forall|i: int, j: int| 0 <= i < j < d.len() implies (#[trigger] d[i]).0 != (
            #[trigger] d[j]).0 by {
                assert(d[i] == e[i] && d[j] == e[j]);
            }
        }
        lemma_last_value_distinct(d, k);
        lemma_find_key(e, k);
        lemma_find_key(d, k);
        let l = e.len() - 1;
        if e.last().0 == k {
            assert forall|j: int| 0 <= j < l implies (#[trigger] e[j]).0 != k by {
                assert(e[j].0 != e[l].0);
            }
            lemma_find_key_unique(e, k, l);
        } else {
            match find_key(d, k) {
                Some(i) => {
                    assert(d[i] == e[i]);
                    assert forall|j: int| 0 <= j < i implies (#[trigger] e[j]).0 != k by {
                        assert(d[j] == e[j]);
                    }
                    lemma_find_key_unique(e, k, i);
                },
                None => {
                    assert forall|j: int| 0 <= j < e.len() implies (#[trigger] e[j]).0 != k by {
                        if j < l {
                            assert(d[j] == e[j]);
                        }
                    }
                },
            }
        }
    }
}

/// Inserting keeps keys distinct.
pub proof fn lemma_insert_keeps_distinct<V>(e: Seq<(Seq<char>, V)>, k: Seq<char>, v: V)
    requires
        keys_distinct(e),
    ensures
        keys_distinct(insert_entry(e, k, v)),
{
    lemma_find_key(e, k);
    let e2 = insert_entry(e, k, v);
    match find_key(e, k) {
        Some(i) => {
            assert forall|a: int, b: int| 0 <= a < b < e2.len() implies (#[trigger] e2[a]).0 != (
            #[trigger] e2[b]).0 by {
                assert(e2[a].0 == e[a].0 && e2[b].0 == e[b].0);
            }
        },
        None => {
            assert forall|a: int, b: int| 0 <= a < b < e2.len() implies (#[trigger] e2[a]).0 != (
            #[trigger] e2[b]).0 by {
                if b < e.len() {
                    assert(e2[a] == e[a] && e2[b] == e[b]);
                } else {
                    assert(e2[a] == e[a]);
                }
            }
        },
    }
}

/// Inserting several pairs keeps keys distinct.
pub proof fn lemma_insert_all_keeps_distinct<V>(e: Seq<(Seq<char>, V)>, adds: Seq<(Seq<char>, V)>)
    requires
        keys_distinct(e),
    ensures
        keys_distinct(insert_all(e, adds)),
    decreases adds.len(),
{
    if adds.len() > 0 {
        lemma_insert_all_keeps_distinct(e, adds.drop_last());
        lemma_insert_keeps_distinct(insert_all(e, adds.drop_last()), adds.last().0, adds.last().1);
    }
}

/// A key that some pair has has a last value.
proof fn lemma_last_value_some<V>(adds: Seq<(Seq<char>, V)>, j: int)
    requires
        0 <= j < adds.len(),
    ensures
        last_value(adds, adds[j].0) is Some,
    decreases adds.len(),
{
    if adds.last().0 != adds[j].0 {
        assert(j < adds.len() - 1);
        assert(adds.drop_last()[j] == adds[j]);
        lemma_last_value_some(adds.drop_last(), j);
    }
}

/// Inserting pairs whose keys are all present already keeps each entry in
/// its place, with the last inserted value for its key, if any.
proof fn lemma_insert_all_present<V>(e: Seq<(Seq<char>, V)>, adds: Seq<(Seq<char>, V)>)
    requires
        keys_distinct(e),
        forall|j: int| 0 <= j < adds.len() ==> has_key(e, (#[trigger] adds[j]).0),
    ensures
        insert_all(e, adds).len() == e.len(),
        forall|i: int|
            0 <= i < e.len() ==> #[trigger] insert_all(e, adds)[i] == (
                e[i].0,
                match last_value(adds, e[i].0) {
                    Some(v) => v,
                    None => e[i].1,
                },
            ),
    decreases adds.len(),
{
    if adds.len() == 0 {
        assert forall|i: int| 0 <= i < e.len() implies #[trigger] insert_all(e, adds)[i] == (
            e[i].0,
            match last_value(adds, e[i].0) {
                Some(v) => v,
                None => e[i].1,
            },
        ) by {
            assert(e[i] == (e[i].0, e[i].1));
        }
    } else {
        let d = adds.drop_last();
        assert forall|j: int| 0 <= j < d.len() implies has_key(e, (#[trigger] d[j]).0) by {
            assert(d[j] == adds[j]);
        }
        lemma_insert_all_present(e, d);
        let r0 = insert_all(e, d);
        let k = adds.last().0;
        let v = adds.last().1;
        assert(has_key(e, adds[adds.len() - 1].0));
        let p = choose|p: int| 0 <= p < e.len() && (#[trigger] e[p]).0 == k;
        assert(r0[p].0 == k);
        assert forall|j: int| 0 <= j < p implies (#[trigger] r0[j]).0 != k by {
            assert(r0[j].0 == e[j].0);
            assert(e[j].0 != e[p].0);
        }
        lemma_find_key_unique(r0, k, p);
        let r = insert_all(e, adds);
        assert(r == r0.update(p, (k, v)));
        assert forall|i: int| 0 <= i < e.len() implies #[trigger] r[i] == (
            e[i].0,
            match last_value(adds, e[i].0) {
                Some(w) => w,
                None => e[i].1,
            },
        ) by {
            if i != p {
                if i < p {
                    assert(e[i].0 != e[p].0);
                } else {
                    assert(e[p].0 != e[i].0);
                }
            }
        }
    }
}

/// Inserting the same pairs twice gives the entries of inserting them once.
pub proof fn lemma_insert_all_twice<V>(e: Seq<(Seq<char>, V)>, adds: Seq<(Seq<char>, V)>)
    requires
        keys_distinct(e),
    ensures
        insert_all(insert_all(e, adds), adds) == insert_all(e, adds),
{
    let e1 = insert_all(e, adds);
    lemma_insert_all_keeps_distinct(e, adds);
    assert forall|j: int| 0 <= j < adds.len() implies has_key(e1, (#[trigger] adds[j]).0) by {
        lemma_last_value_some(adds, j);
        lemma_lookup_insert_all(e, adds, adds[j].0);
        lemma_find_key(e1, adds[j].0);
    }
    lemma_insert_all_present(e1, adds);
    let e2 = insert_all(e1, adds);
    assert forall|i: int| 0 <= i < e1.len() implies e2[i] == e1[i] by {
        let k = e1[i].0;
        lemma_lookup_insert_all(e, adds, k);
        assert forall|j: int| 0 <= j < i implies (#[trigger] e1[j]).0 != k by {
            assert(e1[j].0 != e1[i].0);
        }
        lemma_find_key_unique(e1, k, i);
    }
    assert(e2 =~= e1);
}

/// Wraps `IndexMap::insert`: an entry with an equal key keeps its place and
/// takes the new value; otherwise the pair is appended last.
#[verifier::external_body]
pub(crate) fn env_insert(m: &mut IndexMap<String, String>, k: String, v: String)
    ensures
        env_entries(*final(m)) == insert_entry(env_entries(*old(m)), k@, v@),
{
    m.insert(k, v);
}

/// Wraps `IndexMap::len`: the number of entries. An `IndexMap` holds each
/// key at most once, which this also states.
#[verifier::external_body]
pub(crate) fn env_len(m: &IndexMap<String, String>) -> (r: usize)
    ensures
        r == env_entries(*m).len(),
        forall|i: int, j: int|
            0 <= i < j < r ==> (#[trigger] env_entries(*m)[i]).0 != (#[trigger] env_entries(
                *m,
            )[j]).0,
{
    m.len()
}

/// Wraps `IndexMap::get_index`: the entry at position `i`, if there is one.
#[verifier::external_body]
pub(crate) fn env_get_index(m: &IndexMap<String, String>, i: usize) -> (r: Option<(&String, &String)>)
    ensures
        if i < env_entries(*m).len() {
            r matches Some(p) && p.0@ == env_entries(*m)[i as int].0 && p.1@ == env_entries(
                *m,
            )[i as int].1
        } else {
            r is None
        },
{
    m.get_index(i)
}

/// Wraps `IndexMap::get`: the value stored under the key equal to `k`.
#[verifier::external_body]
pub(crate) fn env_get<'a>(m: &'a IndexMap<String, String>, k: &str) -> (r: Option<&'a String>)
    ensures
        if lookup(env_entries(*m), k@) is Some {
            r matches Some(x) && x@ == lookup(env_entries(*m), k@).unwrap()
        } else {
            r is None
        },
{
    m.get(k)
}

/// Copies every entry of `src` into `dst`, in order, as repeated `insert`s do.
pub fn insert_each(dst: &mut IndexMap<String, String>, src: &IndexMap<String, String>)
    ensures
        env_entries(*final(dst)) == insert_all(env_entries(*old(dst)), env_entries(*src)),
{
    let n = env_len(src);
    let mut i: usize = 0;
    while i < n
        invariant
            n == env_entries(*src).len(),
            i <= n,
            env_entries(*dst) == insert_all(
                env_entries(*old(dst)),
                env_entries(*src).take(i as int),
            ),
        decreases n - i,
    {
        let (k, v) = env_get_index(src, i).unwrap();
        let ghost before = env_entries(*dst);
        env_insert(dst, k.clone(), v.clone());
        proof {
            let t = env_entries(*src).take(i + 1);
            assert(t.drop_last() =~= env_entries(*src).take(i as int));
        }
        i += 1;
    }
    assert(env_entries(*src).take(n as int) =~= env_entries(*src));
}

} // verus!
