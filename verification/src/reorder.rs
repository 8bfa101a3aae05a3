//! The rules of the reorder requests: a full new order of a class's
//! students or a mark set's assessments must name each of them exactly
//! once; a new order of planner units or lessons may name some of them,
//! and the others follow in their old order.
use vstd::prelude::*;
use crate::text::{chars_eq, chars_of, string_of_seq, trim, trim_chars};

verus! {

pub open spec fn texts_of(v: Seq<String>) -> Seq<Seq<char>> {
    v.map_values(|s: String| s@)
}

/// Why a full new order is refused.
#[derive(Clone, Copy, Debug, PartialEq, Eq, Structural)]
pub enum OrderError {
    /// It names `got` items where there are `expected`.
    Length { expected: usize, got: usize },
    /// Its item at this position repeats an earlier one.
    Duplicate(usize),
    /// Its item at this position is not one of the items.
    Unknown(usize),
}

/// The first item among the first `k` of `o` that repeats an earlier one or
/// is not among `c`.
pub open spec fn first_problem(o: Seq<Seq<char>>, c: Seq<Seq<char>>, k: nat) -> Option<OrderError>
    decreases k,
{
    if k == 0 {
        None
    } else {
        match first_problem(o, c, (k - 1) as nat) {
            Some(e) => Some(e),
            None => if o.take(k - 1).contains(o[k - 1]) {
                Some(OrderError::Duplicate((k - 1) as usize))
            } else if !c.contains(o[k - 1]) {
                Some(OrderError::Unknown((k - 1) as usize))
            } else {
                None
            },
        }
    }
}

/// Whether new order `o` of the items `c` is accepted, and if not, why:
/// first its length, then its items in order.
pub open spec fn full_order_check(o: Seq<Seq<char>>, c: Seq<Seq<char>>) -> Result<(), OrderError> {
    if o.len() != c.len() {
        Err(OrderError::Length { expected: c.len() as usize, got: o.len() as usize })
    } else {
        match first_problem(o, c, o.len()) {
            Some(e) => Err(e),
            None => Ok(()),
        }
    }
}

fn contains_text(v: &Vec<String>, upto: usize, s: &String) -> (r: bool)
    requires
        upto <= v@.len(),
    ensures
        r == texts_of(v@).take(upto as int).contains(s@),
{
    let ghost tv = texts_of(v@).take(upto as int);
    let mut i: usize = 0;
    while i < upto
        invariant
            i <= upto <= v@.len(),
            tv == texts_of(v@).take(upto as int),
            forall|q: int| 0 <= q < i ==> tv[q] != s@,
        decreases upto - i,
    {
        assert(tv[i as int] == v@[i as int]@);
        if chars_eq(chars_of(v[i].as_str()).as_slice(), chars_of(s.as_str()).as_slice()) {
            assert(tv[i as int] == s@);
            return true;
        }
        i += 1;
    }
    proof {
        if tv.contains(s@) {
            let q = choose|q: int| 0 <= q < tv.len() && tv[q] == s@;
            assert(tv[q] != s@);
        }
    }
    false
}

/// Whether `ordered` is an accepted new order of `current` (see
/// `full_order_check`).
pub fn check_full_order(ordered: &Vec<String>, current: &Vec<String>) -> (r: Result<(), OrderError>)
    ensures
        r == full_order_check(texts_of(ordered@), texts_of(current@)),
{
    let ghost o = texts_of(ordered@);
    let ghost c = texts_of(current@);
    if ordered.len() != current.len() {
        return Err(OrderError::Length { expected: current.len(), got: ordered.len() });
    }
    let mut k: usize = 0;
    while k < ordered.len()
        invariant
            k <= ordered@.len() == current@.len(),
            o == texts_of(ordered@),
            c == texts_of(current@),
            first_problem(o, c, k as nat) is None,
        decreases ordered@.len() - k,
    {
        assert(o[k as int] == ordered@[k as int]@);
        assert(texts_of(ordered@).take(k as int) =~= o.take(k as int));
        if contains_text(ordered, k, &ordered[k]) {
            proof {
                lemma_problem_stays(o, c, (k + 1) as nat, ordered@.len() as nat);
            }
            return Err(OrderError::Duplicate(k));
        }
        assert(texts_of(current@).take(current@.len() as int) =~= c);
        if !contains_text(current, current.len(), &ordered[k]) {
            proof {
                lemma_problem_stays(o, c, (k + 1) as nat, ordered@.len() as nat);
            }
            return Err(OrderError::Unknown(k));
        }
        k += 1;
    }
    Ok(())
}

/// Once a problem is found it is the one reported.
proof fn lemma_problem_stays(o: Seq<Seq<char>>, c: Seq<Seq<char>>, k: nat, n: nat)
    requires
        k <= n,
        first_problem(o, c, k) is Some,
    ensures
        first_problem(o, c, n) == first_problem(o, c, k),
    decreases n - k,
{
    if k < n {
        lemma_problem_stays(o, c, k, (n - 1) as nat);
    }
}

proof fn lemma_no_problem(o: Seq<Seq<char>>, c: Seq<Seq<char>>, k: nat)
    requires
        k <= o.len(),
        first_problem(o, c, k) is None,
    ensures
        o.take(k as int).no_duplicates(),
        forall|j: int| 0 <= j < k ==> c.contains(#[trigger] o[j]),
    decreases k,
{
    if k > 0 {
        lemma_no_problem(o, c, (k - 1) as nat);
        let p = o.take(k - 1);
        let q = o.take(k as int);
        assert(q == p.push(o[k - 1]));
        assert forall|i: int, j: int| 0 <= i < q.len() && 0 <= j < q.len() && i != j implies q[i] != q[j] by {
            if i < k - 1 && j < k - 1 {
                assert(q[i] == p[i] && q[j] == p[j]);
            } else if i < k - 1 {
                assert(q[i] == p[i]);
                assert(p.contains(p[i]));
            } else {
                assert(q[j] == p[j]);
                assert(p.contains(p[j]));
            }
        }
    }
}

proof fn lemma_problem_means(o: Seq<Seq<char>>, c: Seq<Seq<char>>, k: nat)
    requires
        k <= o.len(),
        first_problem(o, c, k) is Some,
    ensures
        !o.no_duplicates() || exists|j: int| 0 <= j < o.len() && !c.contains(#[trigger] o[j]),
    decreases k,
{
    if first_problem(o, c, (k - 1) as nat) is Some {
        lemma_problem_means(o, c, (k - 1) as nat);
    } else {
        let j = k - 1;
        if o.take(j).contains(o[j]) {
            let i = choose|i: int| 0 <= i < o.take(j).len() && o.take(j)[i] == o[j];
            assert(o[i] == o[j]);
        }
    }
}

/// A full new order is accepted exactly where it names every item once
/// and nothing else: it is as long as the items, has no repeats, and its
/// items are the same set; the items then have no repeats either.
pub proof fn law_full_order_is_permutation(o: Seq<Seq<char>>, c: Seq<Seq<char>>)
    ensures
        full_order_check(o, c) is Ok <==> (o.len() == c.len() && o.no_duplicates() && forall|j: int|
            0 <= j < o.len() ==> c.contains(#[trigger] o[j])),
        full_order_check(o, c) is Ok ==> c.no_duplicates() && o.to_set() == c.to_set(),
{
    if o.len() == c.len() {
        if first_problem(o, c, o.len()) is None {
            lemma_no_problem(o, c, o.len());
            assert(o.take(o.len() as int) =~= o);
            o.unique_seq_to_set();
            c.lemma_cardinality_of_set();
            assert(o.to_set().subset_of(c.to_set())) by {
                assert forall|x: Seq<char>| o.to_set().contains(x) implies c.to_set().contains(x) by {
                    let j = choose|j: int| 0 <= j < o.len() && o[j] == x;
                    assert(c.contains(o[j]));
                }
            }
            vstd::set_lib::lemma_len_subset(o.to_set(), c.to_set());
            vstd::set_lib::lemma_subset_equality(o.to_set(), c.to_set());
            c.lemma_no_dup_set_cardinality();
        } else {
            lemma_problem_means(o, c, o.len());
        }
    }
}

// ---------------------------------------------------------------------------
// Partial orders of planner items
// ---------------------------------------------------------------------------

/// Why an order of planner items is refused.
#[derive(Clone, Copy, Debug, PartialEq, Eq, Structural)]
pub enum IdListError {
    /// An item is not a text.
    NotText,
    /// An item is blank.
    Blank,
}

/// The ids a partial order names: each trimmed, repeats left out (the
/// first is kept); the first item that is not a text or is blank refuses
/// the order.
pub open spec fn named_ids(items: Seq<Option<String>>) -> Result<Seq<Seq<char>>, IdListError>
    decreases items.len(),
{
    if items.len() == 0 {
        Ok(Seq::empty())
    } else {
        match named_ids(items.drop_last()) {
            Err(e) => Err(e),
            Ok(prev) => match items.last() {
                None => Err(IdListError::NotText),
                Some(s) => if trim(s@).len() == 0 {
                    Err(IdListError::Blank)
                } else if prev.contains(trim(s@)) {
                    Ok(prev)
                } else {
                    Ok(prev.push(trim(s@)))
                },
            },
        }
    }
}

proof fn lemma_named_refused(items: Seq<Option<String>>, m: int)
    requires
        0 <= m <= items.len(),
        named_ids(items.take(m)) is Err,
    ensures
        named_ids(items) == named_ids(items.take(m)),
    decreases items.len(),
{
    if m == items.len() {
        assert(items.take(m) =~= items);
    } else {
        let d = items.drop_last();
        assert(d.take(m) =~= items.take(m));
        lemma_named_refused(d, m);
    }
}

/// The ids that a partial order names (see `named_ids`).
pub fn parse_named_ids(items: &Vec<Option<String>>) -> (r: Result<Vec<String>, IdListError>)
    ensures
        match r {
            Ok(v) => named_ids(items@) == Ok::<Seq<Seq<char>>, IdListError>(texts_of(v@)),
            Err(e) => named_ids(items@) == Err::<Seq<Seq<char>>, IdListError>(e),
        },
{
    let mut out: Vec<String> = Vec::new();
    let mut i: usize = 0;
    assert(items@.take(0) =~= Seq::<Option<String>>::empty());
    assert(texts_of(out@) =~= Seq::<Seq<char>>::empty());
    while i < items.len()
        invariant
            i <= items@.len(),
            named_ids(items@.take(i as int)) == Ok::<Seq<Seq<char>>, IdListError>(texts_of(out@)),
        decreases items@.len() - i,
    {
        assert(items@.take(i + 1).drop_last() =~= items@.take(i as int));
        assert(items@.take(i + 1).last() == items@[i as int]);
        match &items[i] {
            None => {
                proof {
                    lemma_named_refused(items@, i + 1);
                }
                return Err(IdListError::NotText);
            },
            Some(s) => {
                let t = trim_chars(chars_of(s.as_str()).as_slice());
                if t.len() == 0 {
                    proof {
                        lemma_named_refused(items@, i + 1);
                    }
                    return Err(IdListError::Blank);
                }
                let ts = string_of_seq(&t);
                assert(texts_of(out@).take(out@.len() as int) =~= texts_of(out@));
                if !contains_text(&out, out.len(), &ts) {
                    let ghost before = texts_of(out@);
                    out.push(ts);
                    assert(texts_of(out@) =~= before.push(t@));
                }
            },
        }
        i += 1;
    }
    assert(items@.take(items@.len() as int) =~= items@);
    Ok(out)
}

/// The new order of planner items: the named ones, then the other
/// existing ones in their old order (each once).
pub open spec fn completed_order(named: Seq<Seq<char>>, existing: Seq<Seq<char>>) -> Seq<Seq<char>>
    decreases existing.len(),
{
    if existing.len() == 0 {
        named
    } else {
        let p = completed_order(named, existing.drop_last());
        if p.contains(existing.last()) {
            p
        } else {
            p.push(existing.last())
        }
    }
}

/// The new order of planner items (see `completed_order`), or the first
/// named id that is not an existing one.
pub fn complete_order(named: &Vec<String>, existing: &Vec<String>) -> (r: Result<Vec<String>, String>)
    ensures
        match r {
            Ok(v) => (forall|j: int| 0 <= j < named@.len() ==> texts_of(existing@).contains(#[trigger] named@[j]@))
                && texts_of(v@) == completed_order(texts_of(named@), texts_of(existing@)),
            Err(id) => exists|j: int|
                0 <= j < named@.len() && named@[j]@ == id@ && !texts_of(existing@).contains(id@) && forall|i: int|
                    0 <= i < j ==> texts_of(existing@).contains(#[trigger] named@[i]@),
        },
{
    let ghost ev = texts_of(existing@);
    let mut j: usize = 0;
    while j < named.len()
        invariant
            j <= named@.len(),
            ev == texts_of(existing@),
            forall|i: int| 0 <= i < j ==> ev.contains(#[trigger] named@[i]@),
        decreases named@.len() - j,
    {
        assert(texts_of(existing@).take(existing@.len() as int) =~= ev);
        if !contains_text(existing, existing.len(), &named[j]) {
            return Err(named[j].clone());
        }
        j += 1;
    }
    let mut out: Vec<String> = Vec::new();
    let mut q: usize = 0;
    while q < named.len()
        invariant
            q <= named@.len(),
            out@.len() == q,
            forall|i: int| 0 <= i < q ==> (#[trigger] out@[i])@ == named@[i]@,
        decreases named@.len() - q,
    {
        out.push(named[q].clone());
        q += 1;
    }
    assert(texts_of(out@) =~= texts_of(named@));
    let mut e: usize = 0;
    assert(ev.take(0) =~= Seq::<Seq<char>>::empty());
    while e < existing.len()
        invariant
            e <= existing@.len(),
            ev == texts_of(existing@),
            texts_of(out@) == completed_order(texts_of(named@), ev.take(e as int)),
        decreases existing@.len() - e,
    {
        assert(ev.take(e + 1).drop_last() =~= ev.take(e as int));
        assert(ev.take(e + 1).last() == existing@[e as int]@);
        assert(texts_of(out@).take(out@.len() as int) =~= texts_of(out@));
        if !contains_text(&out, out.len(), &existing[e]) {
            let ghost before = texts_of(out@);
            out.push(existing[e].clone());
            assert(texts_of(out@) =~= before.push(existing@[e as int]@));
        }
        e += 1;
    }
    assert(ev.take(ev.len() as int) =~= ev);
    Ok(out)
}

proof fn lemma_completed(named: Seq<Seq<char>>, existing: Seq<Seq<char>>)
    requires
        named.no_duplicates(),
    ensures
        completed_order(named, existing).no_duplicates(),
        named.len() <= completed_order(named, existing).len(),
        completed_order(named, existing).take(named.len() as int) == named,
        forall|x: Seq<char>|
            #[trigger] completed_order(named, existing).contains(x) <==> named.contains(x) || existing.contains(x),
    decreases existing.len(),
{
    if existing.len() == 0 {
        assert(named.take(named.len() as int) =~= named);
    } else {
        let d = existing.drop_last();
        lemma_completed(named, d);
        let p = completed_order(named, d);
        let cur = completed_order(named, existing);
        let x = existing.last();
        if !p.contains(x) {
            assert(cur == p.push(x));
            assert forall|i: int, j: int| 0 <= i < cur.len() && 0 <= j < cur.len() && i != j implies cur[i]
                != cur[j] by {
                if i < p.len() && j < p.len() {
                    assert(cur[i] == p[i] && cur[j] == p[j]);
                } else if i < p.len() {
                    assert(cur[i] == p[i]);
                    assert(p.contains(p[i]));
                } else {
                    assert(cur[j] == p[j]);
                    assert(p.contains(p[j]));
                }
            }
            assert(cur.take(named.len() as int) =~= p.take(named.len() as int));
        }
        assert(existing =~= d.push(x));
        assert forall|y: Seq<char>| existing.contains(y) <==> d.contains(y) || y == x by {
            if existing.contains(y) {
                let k = choose|k: int| 0 <= k < existing.len() && existing[k] == y;
                if k < d.len() {
                    assert(d[k] == y);
                }
            }
            if d.contains(y) {
                let k = choose|k: int| 0 <= k < d.len() && d[k] == y;
                assert(existing[k] == y);
            }
            if y == x {
                assert(existing[existing.len() - 1] == y);
            }
        }
        assert forall|y: Seq<char>| cur.contains(y) <==> p.contains(y) || y == x by {
            if !p.contains(x) {
                if cur.contains(y) {
                    let k = choose|k: int| 0 <= k < cur.len() && cur[k] == y;
                    if k < p.len() {
                        assert(p[k] == y);
                    }
                }
                if p.contains(y) {
                    let k = choose|k: int| 0 <= k < p.len() && p[k] == y;
                    assert(cur[k] == y);
                }
                if y == x {
                    assert(cur[cur.len() - 1] == y);
                }
            }
        }
        assert forall|y: Seq<char>| #[trigger] cur.contains(y) <==> named.contains(y) || existing.contains(y) by {
            assert(cur.contains(y) <==> p.contains(y) || y == x);
            assert(existing.contains(y) <==> d.contains(y) || y == x);
            assert(p.contains(y) <==> named.contains(y) || d.contains(y));
        }
    }
}

/// Where the named ids are existing ones, the new order of planner items
/// names each existing item exactly once and nothing else, and begins with
/// the named ones in the order given.
pub proof fn law_completed_order(items: Seq<Option<String>>, existing: Seq<Seq<char>>)
    requires
        named_ids(items) is Ok,
        forall|j: int|
            0 <= j < named_ids(items)->Ok_0.len() ==> existing.contains(#[trigger] named_ids(items)->Ok_0[j]),
    ensures
        ({
            let named = named_ids(items)->Ok_0;
            let order = completed_order(named, existing);
            &&& order.no_duplicates()
            &&& order.to_set() == existing.to_set()
            &&& order.take(named.len() as int) == named
        }),
{
    let named = named_ids(items)->Ok_0;
    lemma_named_distinct(items);
    lemma_completed(named, existing);
    let order = completed_order(named, existing);
    assert(order.to_set() =~= existing.to_set()) by {
        assert forall|x: Seq<char>| order.to_set().contains(x) <==> existing.to_set().contains(x) by {
            if named.contains(x) {
                let j = choose|j: int| 0 <= j < named.len() && named[j] == x;
                assert(existing.contains(named[j]));
            }
        }
    }
}

proof fn lemma_named_distinct(items: Seq<Option<String>>)
    requires
        named_ids(items) is Ok,
    ensures
        named_ids(items)->Ok_0.no_duplicates(),
    decreases items.len(),
{
    if items.len() > 0 {
        lemma_named_distinct(items.drop_last());
        let p = named_ids(items.drop_last())->Ok_0;
        let cur = named_ids(items)->Ok_0;
        if cur.len() > p.len() {
            let x = cur[cur.len() - 1];
            assert(cur == p.push(x));
            assert(!p.contains(x));
            assert forall|i: int, j: int| 0 <= i < cur.len() && 0 <= j < cur.len() && i != j implies cur[i]
                != cur[j] by {
                if i < p.len() && j < p.len() {
                    assert(cur[i] == p[i] && cur[j] == p[j]);
                } else if i < p.len() {
                    assert(cur[i] == p[i]);
                    assert(p.contains(p[i]));
                } else {
                    assert(cur[j] == p[j]);
                    assert(p.contains(p[j]));
                }
            }
        }
    }
}

} // verus!
