//! The macro table's backing stores: a vector-backed set of names and a
//! vector-backed map from names to replacement texts, with `Set` and `Map`
//! views and uniqueness invariants.

use crate::text::str_eq;
use vstd::prelude::*;

verus! {

/// The set of name views held by `v`.
pub open spec fn names_set(v: Seq<String>) -> Set<Seq<char>> {
    Set::new(|x: Seq<char>| exists|i: int| 0 <= i < v.len() && v[i]@ == x)
}

/// Each name view occurs at most once.
pub open spec fn unique_names(v: Seq<String>) -> bool {
    forall|i: int, j: int| 0 <= i < j < v.len() ==> v[i]@ != v[j]@
}

/// The map from key views to value views held by `v`; later pairs win.
pub open spec fn pairs_map(v: Seq<(String, String)>) -> Map<Seq<char>, Seq<char>>
    decreases v.len(),
{
    if v.len() == 0 {
        Map::empty()
    } else {
        pairs_map(v.drop_last()).insert(v.last().0@, v.last().1@)
    }
}

/// Each key view occurs at most once.
pub open spec fn unique_keys(v: Seq<(String, String)>) -> bool {
    forall|i: int, j: int| 0 <= i < j < v.len() ==> v[i].0@ != v[j].0@
}

/// A key view is in the map exactly when some pair holds it.
pub proof fn lemma_pairs_map_dom(v: Seq<(String, String)>)
    ensures
        forall|x: Seq<char>|
            #[trigger] pairs_map(v).contains_key(x) <==> exists|i: int|
                0 <= i < v.len() && v[i].0@ == x,
    decreases v.len(),
{
    if v.len() == 0 {
    } else {
        lemma_pairs_map_dom(v.drop_last());
        assert forall|x: Seq<char>| #[trigger] pairs_map(v).contains_key(x) implies exists|i: int|
            0 <= i < v.len() && v[i].0@ == x by {
            if x == v.last().0@ {
                assert(v[v.len() - 1].0@ == x);
            } else {
                assert(pairs_map(v.drop_last()).contains_key(x));
                let i = choose|i: int| 0 <= i < v.drop_last().len() && v.drop_last()[i].0@ == x;
                assert(v.drop_last()[i] == v[i]);
                assert(v[i].0@ == x);
            }
        }
        assert forall|x: Seq<char>| (exists|i: int| 0 <= i < v.len() && v[i].0@ == x) implies (
        #[trigger] pairs_map(v).contains_key(x)) by {
            let i = choose|i: int| 0 <= i < v.len() && v[i].0@ == x;
            if i < v.len() - 1 {
                assert(v.drop_last()[i].0@ == x);
                assert(pairs_map(v.drop_last()).contains_key(x));
            }
        }
    }
}

/// A pair's key maps to that pair's value.
pub proof fn lemma_pairs_map_at(v: Seq<(String, String)>, i: int)
    requires
        unique_keys(v),
        0 <= i < v.len(),
    ensures
        pairs_map(v).contains_key(v[i].0@),
        pairs_map(v)[v[i].0@] == v[i].1@,
    decreases v.len(),
{
    if i == v.len() - 1 {
    } else {
        assert(unique_keys(v.drop_last())) by {
            assert(forall|k: int| 0 <= k < v.len() - 1 ==> v.drop_last()[k] == v[k]);
        }
        lemma_pairs_map_at(v.drop_last(), i);
        assert(v.drop_last()[i] == v[i]);
        assert(v[i].0@ != v.last().0@);
    }
}

/// Removing the one pair holding a key removes the key from the map.
pub proof fn lemma_pairs_map_remove(v: Seq<(String, String)>, i: int)
    requires
        unique_keys(v),
        0 <= i < v.len(),
    ensures
        pairs_map(v.remove(i)) == pairs_map(v).remove(v[i].0@),
    decreases v.len(),
{
    let k = v[i].0@;
    let dl = v.drop_last();
    assert(forall|j: int| 0 <= j < v.len() - 1 ==> dl[j] == v[j]);
    assert(unique_keys(dl));
    if i == v.len() - 1 {
        assert(v.remove(i) =~= dl);
        lemma_pairs_map_dom(dl);
        assert(!pairs_map(dl).contains_key(k));
        assert(pairs_map(dl) =~= pairs_map(dl).insert(k, v.last().1@).remove(k));
    } else {
        let w = v.remove(i);
        v.remove_ensures(i);
        assert(w.last() == v.last());
        assert(w.drop_last() =~= dl.remove(i)) by {
            dl.remove_ensures(i);
            assert(forall|j: int| 0 <= j < i ==> #[trigger] w.drop_last()[j] == v[j]);
            assert(forall|j: int|
                i <= j < v.len() - 2 ==> #[trigger] w.drop_last()[j] == v[j + 1]);
        }
        lemma_pairs_map_remove(dl, i);
        assert(dl[i] == v[i]);
        assert(pairs_map(w) == pairs_map(dl).remove(k).insert(v.last().0@, v.last().1@));
        assert(v.last().0@ != k);
        assert(pairs_map(dl).remove(k).insert(v.last().0@, v.last().1@) =~= pairs_map(
            dl,
        ).insert(v.last().0@, v.last().1@).remove(k));
    }
}

/// Whether some name in `v` has view `x@`.
pub fn names_contains(v: &Vec<String>, x: &str) -> (r: bool)
    ensures
        r == names_set(v@).contains(x@),
{
    let mut i: usize = 0;
    while i < v.len()
        invariant
            i <= v@.len(),
            forall|k: int| 0 <= k < i ==> v@[k]@ != x@,
        decreases v@.len() - i,
    {
        if str_eq(v[i].as_str(), x) {
            proof {
                assert(0 <= i < v@.len() && v@[i as int]@ == x@);
            }
            return true;
        }
        i += 1;
    }
    false
}

/// Adds a name to the set.
pub fn insert_name(v: &mut Vec<String>, x: String)
    requires
        unique_names(old(v)@),
    ensures
        unique_names(final(v)@),
        names_set(final(v)@) == names_set(old(v)@).insert(x@),
{
    let present = names_contains(v, x.as_str());
    if !present {
        let ghost v0 = v@;
        v.push(x);
        proof {
            assert(forall|k: int| 0 <= k < v0.len() ==> v@[k] == v0[k]);
            assert(names_set(v@) =~= names_set(v0).insert(x@)) by {
                assert forall|y: Seq<char>| names_set(v0).insert(x@).contains(y) implies names_set(
                    v@,
                ).contains(y) by {
                    if y == x@ {
                        assert(v@[v0.len() as int]@ == y);
                    } else {
                        let i = choose|i: int| 0 <= i < v0.len() && v0[i]@ == y;
                        assert(v@[i]@ == y);
                    }
                }
            }
        }
    } else {
        proof {
            assert(names_set(v@).insert(x@) =~= names_set(v@));
        }
    }
}

/// Removes a name from the set, if present.
pub fn remove_name(v: &mut Vec<String>, x: &str)
    requires
        unique_names(old(v)@),
    ensures
        unique_names(final(v)@),
        names_set(final(v)@) == names_set(old(v)@).remove(x@),
{
    let mut i: usize = 0;
    while i < v.len()
        invariant
            i <= v@.len(),
            v@ == old(v)@,
            unique_names(v@),
            forall|k: int| 0 <= k < i ==> v@[k]@ != x@,
        decreases v@.len() - i,
    {
        if str_eq(v[i].as_str(), x) {
            let ghost v0 = v@;
            v.remove(i);
            proof {
                v0.remove_ensures(i as int);
                assert(v@ == v0.remove(i as int));
                assert(unique_names(v@)) by {
                    assert forall|p: int, q: int| 0 <= p < q < v@.len() implies v@[p]@ != v@[q]@ by {
                        let p0 = if p < i { p } else { p + 1 };
                        let q0 = if q < i { q } else { q + 1 };
                        assert(v0.remove(i as int)[p] == v0[p0]);
                        assert(v0.remove(i as int)[q] == v0[q0]);
                    }
                }
                assert(names_set(v@) =~= names_set(v0).remove(x@)) by {
                    assert forall|y: Seq<char>| names_set(v@).contains(y) implies names_set(
                        v0,
                    ).remove(x@).contains(y) by {
                        let j = choose|j: int| 0 <= j < v@.len() && v@[j]@ == y;
                        let j0 = if j < i { j } else { j + 1 };
                        assert(v0.remove(i as int)[j] == v0[j0]);
                        assert(v0[j0]@ == y);
                        assert(j0 != i);
                        if j0 < i {
                            assert(v0[j0]@ != v0[i as int]@);
                        } else {
                            assert(v0[i as int]@ != v0[j0]@);
                        }
                        assert(y != x@);
                    }
                    assert forall|y: Seq<char>| names_set(v0).remove(x@).contains(
                        y,
                    ) implies names_set(v@).contains(y) by {
                        let j0 = choose|j0: int| 0 <= j0 < v0.len() && v0[j0]@ == y;
                        assert(j0 != i);
                        let j = if j0 < i { j0 } else { j0 - 1 };
                        assert(v0.remove(i as int)[j] == v0[j0]);
                        assert(v@[j]@ == y);
                    }
                }
            }
            return ;
        }
        i += 1;
    }
    proof {
        assert(names_set(v@).remove(x@) =~= names_set(v@));
    }
}

/// Looks a key up and hands back a copy of its value.
pub fn pairs_lookup(v: &Vec<(String, String)>, x: &str) -> (r: Option<String>)
    requires
        unique_keys(v@),
    ensures
        match r {
            Some(t) => pairs_map(v@).contains_key(x@) && t@ == pairs_map(v@)[x@],
            None => !pairs_map(v@).contains_key(x@),
        },
{
    proof {
        lemma_pairs_map_dom(v@);
    }
    let mut i: usize = 0;
    while i < v.len()
        invariant
            i <= v@.len(),
            unique_keys(v@),
            forall|k: int| 0 <= k < i ==> v@[k].0@ != x@,
            forall|y: Seq<char>|
                #[trigger] pairs_map(v@).contains_key(y) <==> exists|k: int|
                    0 <= k < v@.len() && v@[k].0@ == y,
        decreases v@.len() - i,
    {
        if str_eq(v[i].0.as_str(), x) {
            let val = v[i].1.clone();
            proof {
                assert(0 <= i < v@.len() && v@[i as int].0@ == x@);
                lemma_pairs_map_at(v@, i as int);
            }
            return Some(val);
        }
        i += 1;
    }
    None
}

/// Binds a key to a value, displacing any earlier binding.
pub fn insert_pair(v: &mut Vec<(String, String)>, x: String, t: String)
    requires
        unique_keys(old(v)@),
    ensures
        unique_keys(final(v)@),
        pairs_map(final(v)@) == pairs_map(old(v)@).insert(x@, t@),
{
    remove_pair(v, x.as_str());
    let ghost v1 = v@;
    v.push((x, t));
    proof {
        assert(v@.drop_last() =~= v1);
        assert(pairs_map(v@) == pairs_map(v1).insert(v@.last().0@, v@.last().1@));
        assert(pairs_map(v1).insert(x@, t@) =~= pairs_map(old(v)@).insert(x@, t@));
        lemma_pairs_map_dom(v1);
        assert(unique_keys(v@)) by {
            assert(forall|k: int| 0 <= k < v1.len() ==> v@[k] == v1[k]);
            assert forall|p: int, q: int| 0 <= p < q < v@.len() implies v@[p].0@ != v@[q].0@ by {
                if q == v@.len() - 1 {
                    assert(!pairs_map(v1).contains_key(x@));
                    assert(v1[p].0@ != x@);
                }
            }
        }
    }
}

/// Removes a key's binding, if present.
pub fn remove_pair(v: &mut Vec<(String, String)>, x: &str)
    requires
        unique_keys(old(v)@),
    ensures
        unique_keys(final(v)@),
        pairs_map(final(v)@) == pairs_map(old(v)@).remove(x@),
{
    proof {
        lemma_pairs_map_dom(v@);
    }
    let mut i: usize = 0;
    while i < v.len()
        invariant
            i <= v@.len(),
            v@ == old(v)@,
            unique_keys(v@),
            forall|k: int| 0 <= k < i ==> v@[k].0@ != x@,
        decreases v@.len() - i,
    {
        if str_eq(v[i].0.as_str(), x) {
            let ghost v0 = v@;
            v.remove(i);
            proof {
                v0.remove_ensures(i as int);
                assert(v0[i as int].0@ == x@);
                lemma_pairs_map_remove(v0, i as int);
                assert(v@ =~= v0.remove(i as int));
                assert(unique_keys(v@)) by {
                    assert forall|p: int, q: int| 0 <= p < q < v@.len() implies v@[p].0@
                        != v@[q].0@ by {
                        let p0 = if p < i { p } else { p + 1 };
                        let q0 = if q < i { q } else { q + 1 };
                        assert(v0.remove(i as int)[p] == v0[p0]);
                        assert(v0.remove(i as int)[q] == v0[q0]);
                        assert(v@[p] == v0[p0]);
                        assert(v@[q] == v0[q0]);
                    }
                }
            }
            return ;
        }
        i += 1;
    }
    proof {
        lemma_pairs_map_dom(v@);
        assert(pairs_map(v@).remove(x@) =~= pairs_map(v@));
    }
}

} // verus!
