//! The ghost model of a key/value table: a sequence of pairs, read with
//! first-match lookup and written with insert-that-replaces.  Both the
//! classification tree and the extracted value tree are such tables.

use vstd::prelude::*;

verus! {

/// First entry whose key equals `k`, if any.
pub open spec fn tbl_get<V>(t: Seq<(Seq<char>, V)>, k: Seq<char>) -> Option<V>
    decreases t.len(),
{
    if t.len() == 0 {
        None
    } else if t[0].0 == k {
        Some(t[0].1)
    } else {
        tbl_get(t.subrange(1, t.len() as int), k)
    }
}

pub open spec fn tbl_has<V>(t: Seq<(Seq<char>, V)>, k: Seq<char>) -> bool {
    tbl_get(t, k) is Some
}

/// No two entries share a key.
pub open spec fn tbl_unique<V>(t: Seq<(Seq<char>, V)>) -> bool {
    forall|i: int, j: int| 0 <= i < j < t.len() ==> t[i].0 != t[j].0
}

/// Replace the value at the key's first occurrence, or append a new entry.
pub open spec fn tbl_insert<V>(t: Seq<(Seq<char>, V)>, k: Seq<char>, v: V) -> Seq<(Seq<char>, V)>
    decreases t.len(),
{
    if t.len() == 0 {
        seq![(k, v)]
    } else if t[0].0 == k {
        seq![(k, v)] + t.subrange(1, t.len() as int)
    } else {
        seq![t[0]] + tbl_insert(t.subrange(1, t.len() as int), k, v)
    }
}

/// Appending an entry leaves earlier lookups untouched and serves lookups of
/// its own key only when no earlier entry already had it.
pub proof fn lemma_tbl_get_push<V>(t: Seq<(Seq<char>, V)>, p: (Seq<char>, V), k: Seq<char>)
    ensures
        tbl_get(t.push(p), k) == if tbl_get(t, k) is Some {
            tbl_get(t, k)
        } else if p.0 == k {
            Some(p.1)
        } else {
            None::<V>
        },
    decreases t.len(),
{
    reveal_with_fuel(tbl_get, 3);
    if t.len() == 0 {
        assert(t.push(p)[0] == p);
        assert(t.push(p).subrange(1, 1) =~= Seq::<(Seq<char>, V)>::empty());
    } else {
        assert(t.push(p)[0] == t[0]);
        assert(t.push(p).subrange(1, t.len() as int + 1) =~= t.subrange(1, t.len() as int).push(
            p,
        ));
        lemma_tbl_get_push(t.subrange(1, t.len() as int), p, k);
    }
}

/// What `tbl_insert` does to every lookup: the inserted key now maps to the
/// inserted value, all other keys are untouched.
pub proof fn lemma_tbl_get_insert<V>(t: Seq<(Seq<char>, V)>, k: Seq<char>, v: V, k2: Seq<char>)
    ensures
        tbl_get(tbl_insert(t, k, v), k2) == if k2 == k {
            Some(v)
        } else {
            tbl_get(t, k2)
        },
    decreases t.len(),
{
    reveal_with_fuel(tbl_get, 3);
    reveal_with_fuel(tbl_insert, 2);
    if t.len() == 0 {
        assert(tbl_insert(t, k, v) =~= seq![(k, v)]);
        assert(seq![(k, v)].subrange(1, 1) =~= Seq::<(Seq<char>, V)>::empty());
    } else if t[0].0 == k {
        let r = tbl_insert(t, k, v);
        assert(r[0] == (k, v));
        assert(r.subrange(1, r.len() as int) =~= t.subrange(1, t.len() as int));
    } else {
        let r = tbl_insert(t, k, v);
        let rest = t.subrange(1, t.len() as int);
        assert(r[0] == t[0]);
        assert(r.subrange(1, r.len() as int) =~= tbl_insert(rest, k, v));
        lemma_tbl_get_insert(rest, k, v, k2);
    }
}

/// `tbl_insert` keeps a table duplicate-free, and introduces no key other
/// than the inserted one.
pub proof fn lemma_tbl_insert_unique<V>(t: Seq<(Seq<char>, V)>, k: Seq<char>, v: V)
    ensures
        forall|i: int|
            0 <= i < tbl_insert(t, k, v).len() ==> #[trigger] tbl_insert(t, k, v)[i].0 == k
                || exists|j: int| 0 <= j < t.len() && t[j].0 == tbl_insert(t, k, v)[i].0,
        tbl_unique(t) ==> tbl_unique(tbl_insert(t, k, v)),
    decreases t.len(),
{
    let r = tbl_insert(t, k, v);
    if t.len() == 0 {
        assert(r =~= seq![(k, v)]);
    } else if t[0].0 == k {
        let rest = t.subrange(1, t.len() as int);
        assert(r[0] == (k, v));
        assert(r.subrange(1, r.len() as int) =~= rest);
        assert forall|i: int| 0 <= i < r.len() implies #[trigger] r[i].0 == k
            || exists|j: int| 0 <= j < t.len() && t[j].0 == r[i].0 by {
            if i > 0 {
                assert(r[i] == t[i]);
            }
        }
        if tbl_unique(t) {
            assert forall|i: int, j: int| 0 <= i < j < r.len() implies r[i].0 != r[j].0 by {
                assert(r[j] == t[j]);
                if i > 0 {
                    assert(r[i] == t[i]);
                } else {
                    assert(t[0].0 != t[j].0);
                }
            }
        }
    } else {
        let rest = t.subrange(1, t.len() as int);
        lemma_tbl_insert_unique(rest, k, v);
        let ri = tbl_insert(rest, k, v);
        assert(r[0] == t[0]);
        assert(r.subrange(1, r.len() as int) =~= ri);
        assert forall|i: int| 0 <= i < r.len() implies #[trigger] r[i].0 == k
            || exists|j: int| 0 <= j < t.len() && t[j].0 == r[i].0 by {
            if i == 0 {
                assert(t[0].0 == r[0].0);
            } else {
                assert(r[i] == ri[i - 1]);
                if ri[i - 1].0 != k {
                    let j = choose|j: int| 0 <= j < rest.len() && rest[j].0 == ri[i - 1].0;
                    assert(t[j + 1].0 == r[i].0);
                }
            }
        }
        if tbl_unique(t) {
            assert(tbl_unique(rest));
            assert forall|i: int, j: int| 0 <= i < j < r.len() implies r[i].0 != r[j].0 by {
                if i == 0 {
                    assert(r[j] == ri[j - 1]);
                    if ri[j - 1].0 != k {
                        let w = choose|w: int|
                            0 <= w < rest.len() && rest[w].0 == ri[j - 1].0;
                        assert(t[w + 1].0 == r[j].0);
                        assert(t[0].0 != t[w + 1].0);
                    }
                } else {
                    assert(r[i] == ri[i - 1]);
                    assert(r[j] == ri[j - 1]);
                }
            }
        }
    }
}

/// A key is served exactly when some entry carries it.
pub proof fn lemma_tbl_get_has_index<V>(t: Seq<(Seq<char>, V)>, k: Seq<char>)
    ensures
        tbl_get(t, k) is Some <==> exists|i: int| 0 <= i < t.len() && #[trigger] t[i].0 == k,
    decreases t.len(),
{
    if t.len() > 0 {
        let rest = t.subrange(1, t.len() as int);
        lemma_tbl_get_has_index(rest, k);
        if t[0].0 == k {
        } else {
            if tbl_get(rest, k) is Some {
                let i = choose|i: int| 0 <= i < rest.len() && #[trigger] rest[i].0 == k;
                assert(t[i + 1].0 == k);
            }
            if exists|i: int| 0 <= i < t.len() && #[trigger] t[i].0 == k {
                let i = choose|i: int| 0 <= i < t.len() && #[trigger] t[i].0 == k;
                assert(rest[i - 1].0 == k);
            }
        }
    }
}

/// Replacing at the first occurrence of a present key is an in-place update.
pub proof fn lemma_tbl_insert_present<V>(t: Seq<(Seq<char>, V)>, k: Seq<char>, v: V, i: int)
    requires
        0 <= i < t.len(),
        t[i].0 == k,
        forall|j: int| 0 <= j < i ==> t[j].0 != k,
    ensures
        tbl_insert(t, k, v) == t.update(i, (k, v)),
    decreases t.len(),
{
    if i == 0 {
        assert(tbl_insert(t, k, v) =~= t.update(0, (k, v)));
    } else {
        let rest = t.subrange(1, t.len() as int);
        lemma_tbl_insert_present(rest, k, v, i - 1);
        assert(tbl_insert(t, k, v) =~= t.update(i, (k, v)));
    }
}

/// Inserting an absent key appends its entry.
pub proof fn lemma_tbl_insert_absent<V>(t: Seq<(Seq<char>, V)>, k: Seq<char>, v: V)
    requires
        forall|j: int| 0 <= j < t.len() ==> t[j].0 != k,
    ensures
        tbl_insert(t, k, v) == t.push((k, v)),
    decreases t.len(),
{
    if t.len() == 0 {
        assert(tbl_insert(t, k, v) =~= t.push((k, v)));
    } else {
        let rest = t.subrange(1, t.len() as int);
        lemma_tbl_insert_absent(rest, k, v);
        assert(tbl_insert(t, k, v) =~= t.push((k, v)));
    }
}

} // verus!
