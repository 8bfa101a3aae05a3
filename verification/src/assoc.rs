//! Lists of entries keyed by text, read as maps: the value of a key is that
//! of its first entry.
use vstd::prelude::*;
use crate::text::{chars_eq, chars_of};

verus! {

/// The value under key `k`: that of the first entry with that key.
pub open spec fn lookup<V>(es: Seq<(Seq<char>, V)>, k: Seq<char>) -> Option<V>
    decreases es.len(),
{
    if es.len() == 0 {
        None
    } else if es[0].0 == k {
        Some(es[0].1)
    } else {
        lookup(es.drop_first(), k)
    }
}

/// The map that `lookup` reads from a list.
pub open spec fn as_map<V>(es: Seq<(Seq<char>, V)>) -> Map<Seq<char>, V> {
    Map::new(|k: Seq<char>| lookup(es, k) is Some, |k: Seq<char>| lookup(es, k).unwrap())
}

pub proof fn lemma_lookup_first<V>(es: Seq<(Seq<char>, V)>, i: int, k: Seq<char>)
    requires
        0 <= i < es.len(),
        es[i].0 == k,
        forall|j: int| 0 <= j < i ==> es[j].0 != k,
    ensures
        lookup(es, k) == Some(es[i].1),
    decreases i,
{
    if i > 0 {
        lemma_lookup_first(es.drop_first(), i - 1, k);
    }
}

pub proof fn lemma_lookup_absent<V>(es: Seq<(Seq<char>, V)>, k: Seq<char>)
    requires
        forall|j: int| 0 <= j < es.len() ==> es[j].0 != k,
    ensures
        lookup(es, k) is None,
    decreases es.len(),
{
    if es.len() > 0 {
        lemma_lookup_absent(es.drop_first(), k);
    }
}

pub proof fn lemma_lookup_update<V>(es: Seq<(Seq<char>, V)>, i: int, v: V, k: Seq<char>)
    requires
        0 <= i < es.len(),
        forall|j: int| 0 <= j < i ==> es[j].0 != es[i].0,
    ensures
        lookup(es.update(i, (es[i].0, v)), k) == if k == es[i].0 {
            Some(v)
        } else {
            lookup(es, k)
        },
    decreases i,
{
    let es2 = es.update(i, (es[i].0, v));
    if i > 0 {
        assert(es2.drop_first() == es.drop_first().update(i - 1, (es[i].0, v)));
        lemma_lookup_update(es.drop_first(), i - 1, v, k);
    } else {
        assert(es2.drop_first() == es.drop_first());
    }
}

pub proof fn lemma_lookup_push<V>(es: Seq<(Seq<char>, V)>, e: (Seq<char>, V), k: Seq<char>)
    requires
        forall|j: int| 0 <= j < es.len() ==> es[j].0 != e.0,
    ensures
        lookup(es.push(e), k) == if k == e.0 {
            Some(e.1)
        } else {
            lookup(es, k)
        },
    decreases es.len(),
{
    if es.len() > 0 {
        assert(es.push(e).drop_first() == es.drop_first().push(e));
        lemma_lookup_push(es.drop_first(), e, k);
    } else {
        assert(es.push(e).drop_first() == es);
    }
}

/// Setting the first entry of a key, or adding one, makes the map take the
/// new value there.
pub proof fn lemma_as_map_update<V>(es: Seq<(Seq<char>, V)>, i: int, v: V)
    requires
        0 <= i < es.len(),
        forall|j: int| 0 <= j < i ==> es[j].0 != es[i].0,
    ensures
        as_map(es.update(i, (es[i].0, v))) == as_map(es).insert(es[i].0, v),
{
    assert forall|k: Seq<char>| #![auto] true implies lookup(es.update(i, (es[i].0, v)), k) == if k
        == es[i].0 {
        Some(v)
    } else {
        lookup(es, k)
    } by {
        lemma_lookup_update(es, i, v, k);
    }
    assert(as_map(es.update(i, (es[i].0, v))) =~= as_map(es).insert(es[i].0, v));
}

pub proof fn lemma_as_map_push<V>(es: Seq<(Seq<char>, V)>, e: (Seq<char>, V))
    requires
        forall|j: int| 0 <= j < es.len() ==> es[j].0 != e.0,
    ensures
        as_map(es.push(e)) == as_map(es).insert(e.0, e.1),
{
    assert forall|k: Seq<char>| #![auto] true implies lookup(es.push(e), k) == if k == e.0 {
        Some(e.1)
    } else {
        lookup(es, k)
    } by {
        lemma_lookup_push(es, e, k);
    }
    assert(as_map(es.push(e)) =~= as_map(es).insert(e.0, e.1));
}

pub open spec fn keys_view<V>(es: Seq<(String, V)>) -> Seq<Seq<char>> {
    es.map_values(|e: (String, V)| e.0@)
}

/// The place of the first entry with key `key`.
pub fn position<V>(es: &Vec<(String, V)>, key: &[char]) -> (r: Option<usize>)
    ensures
        match r {
            Some(i) => i < es@.len() && keys_view(es@)[i as int] == key@ && forall|j: int|
                0 <= j < i ==> keys_view(es@)[j] != key@,
            None => forall|j: int| 0 <= j < es@.len() ==> keys_view(es@)[j] != key@,
        },
{
    let mut i: usize = 0;
    while i < es.len()
        invariant
            i <= es@.len(),
            forall|j: int| 0 <= j < i ==> keys_view(es@)[j] != key@,
        decreases es@.len() - i,
    {
        if chars_eq(chars_of(es[i].0.as_str()).as_slice(), key) {
            return Some(i);
        }
        i += 1;
    }
    None
}

} // verus!
