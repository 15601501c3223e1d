//! Association lists keyed by strings, read as maps.

use vstd::prelude::*;

verus! {

/// The map that an association list describes: a later pair wins over an
/// earlier one with the same key.
pub open spec fn pairs_map<V>(s: Seq<(Seq<char>, V)>) -> Map<Seq<char>, V>
    decreases s.len(),
{
    if s.len() == 0 {
        Map::empty()
    } else {
        pairs_map(s.drop_last()).insert(s.last().0, s.last().1)
    }
}

/// No key occurs twice in the list.
pub open spec fn keys_unique<V>(s: Seq<(Seq<char>, V)>) -> bool {
    forall|i: int, j: int| 0 <= i < s.len() && 0 <= j < s.len() && i != j ==> s[i].0 != s[j].0
}

pub proof fn lemma_pairs_map_dom<V>(s: Seq<(Seq<char>, V)>, k: Seq<char>)
    ensures
        pairs_map(s).contains_key(k) <==> exists|i: int| 0 <= i < s.len() && s[i].0 == k,
    decreases s.len(),
{
    if s.len() > 0 {
        lemma_pairs_map_dom(s.drop_last(), k);
        if pairs_map(s).contains_key(k) && k != s.last().0 {
            let i = choose|i: int| 0 <= i < s.len() - 1 && s.drop_last()[i].0 == k;
            assert(s[i].0 == k);
        }
        if exists|i: int| 0 <= i < s.len() && s[i].0 == k {
            let i = choose|i: int| 0 <= i < s.len() && s[i].0 == k;
            if i < s.len() - 1 {
                assert(s.drop_last()[i].0 == k);
            }
        }
    }
}

pub proof fn lemma_pairs_map_index<V>(s: Seq<(Seq<char>, V)>, i: int)
    requires
        keys_unique(s),
        0 <= i < s.len(),
    ensures
        pairs_map(s).contains_key(s[i].0),
        pairs_map(s)[s[i].0] == s[i].1,
    decreases s.len(),
{
    if i < s.len() - 1 {
        let d = s.drop_last();
        assert(keys_unique(d));
        lemma_pairs_map_index(d, i);
        assert(d[i] == s[i]);
        assert(s[i].0 != s.last().0);
    }
}

pub proof fn lemma_pairs_map_push<V>(s: Seq<(Seq<char>, V)>, p: (Seq<char>, V))
    ensures
        pairs_map(s.push(p)) == pairs_map(s).insert(p.0, p.1),
{
    assert(s.push(p).drop_last() =~= s);
}

pub proof fn lemma_pairs_map_remove<V>(s: Seq<(Seq<char>, V)>, i: int)
    requires
        keys_unique(s),
        0 <= i < s.len(),
    ensures
        keys_unique(s.remove(i)),
        pairs_map(s.remove(i)) == pairs_map(s).remove(s[i].0),
    decreases s.len(),
{
    let d = s.drop_last();
    assert(keys_unique(d));
    if i == s.len() - 1 {
        assert(s.remove(i) =~= d);
        lemma_pairs_map_dom(d, s[i].0);
        assert(pairs_map(s).remove(s[i].0) =~= pairs_map(d));
    } else {
        lemma_pairs_map_remove(d, i);
        assert(s.remove(i).drop_last() =~= d.remove(i));
        assert(s[i].0 != s.last().0);
        assert(pairs_map(s.remove(i)) =~= pairs_map(s).remove(s[i].0));
    }
}

pub proof fn lemma_pairs_map_update<V>(s: Seq<(Seq<char>, V)>, i: int, v: V)
    requires
        keys_unique(s),
        0 <= i < s.len(),
    ensures
        keys_unique(s.update(i, (s[i].0, v))),
        pairs_map(s.update(i, (s[i].0, v))) == pairs_map(s).insert(s[i].0, v),
    decreases s.len(),
{
    let u = s.update(i, (s[i].0, v));
    let d = s.drop_last();
    assert(keys_unique(d));
    if i == s.len() - 1 {
        assert(u.drop_last() =~= d);
        assert(pairs_map(u) =~= pairs_map(s).insert(s[i].0, v));
    } else {
        lemma_pairs_map_update(d, i, v);
        assert(u.drop_last() =~= d.update(i, (s[i].0, v)));
        assert(s[i].0 != s.last().0);
        assert(pairs_map(u) =~= pairs_map(s).insert(s[i].0, v));
    }
}

} // verus!
