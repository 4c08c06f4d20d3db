//! A mathematical model for association sequences: a `Seq` of key/value
//! pairs viewed as a `Map`, later entries winning over earlier ones.
//! Every vector-backed table of the crate states its contract through
//! `kv_map` and proves it with these lemmas.

use vstd::prelude::*;

verus! {

/// The map denoted by an association sequence; a later pair with the same
/// key overrides an earlier one.
pub open spec fn kv_map<K, V>(s: Seq<(K, V)>) -> Map<K, V>
    decreases s.len(),
{
    if s.len() == 0 {
        Map::empty()
    } else {
        kv_map(s.drop_last()).insert(s.last().0, s.last().1)
    }
}

/// No two pairs share a key.
pub open spec fn kv_unique<K, V>(s: Seq<(K, V)>) -> bool {
    forall|i: int, j: int| 0 <= i < j < s.len() ==> (#[trigger] s[i]).0 != (#[trigger] s[j]).0
}

pub proof fn lemma_kv_map_dom<K, V>(s: Seq<(K, V)>, k: K)
    ensures
        kv_map(s).contains_key(k) <==> exists|i: int| 0 <= i < s.len() && (#[trigger] s[i]).0 == k,
    decreases s.len(),
{
    if s.len() > 0 {
        lemma_kv_map_dom(s.drop_last(), k);
        if kv_map(s).contains_key(k) {
            if s.last().0 == k {
                assert(s[s.len() - 1].0 == k);
            } else {
                let i = choose|i: int| 0 <= i < s.len() - 1 && (#[trigger] s.drop_last()[i]).0 == k;
                assert(s[i].0 == k);
            }
        }
        if exists|i: int| 0 <= i < s.len() && (#[trigger] s[i]).0 == k {
            let i = choose|i: int| 0 <= i < s.len() && (#[trigger] s[i]).0 == k;
            if i < s.len() - 1 {
                assert(s.drop_last()[i].0 == k);
            }
        }
    }
}

pub proof fn lemma_kv_map_get<K, V>(s: Seq<(K, V)>, i: int)
    requires
        kv_unique(s),
        0 <= i < s.len(),
    ensures
        kv_map(s).contains_key(s[i].0),
        kv_map(s)[s[i].0] == s[i].1,
    decreases s.len(),
{
    if i == s.len() - 1 {
        assert(kv_map(s) == kv_map(s.drop_last()).insert(s.last().0, s.last().1));
    } else {
        assert(s.drop_last()[i] == s[i]);
        lemma_kv_map_get(s.drop_last(), i);
        assert(s[i].0 != s.last().0);
    }
}

pub proof fn lemma_kv_map_push<K, V>(s: Seq<(K, V)>, k: K, v: V)
    ensures
        kv_map(s.push((k, v))) == kv_map(s).insert(k, v),
{
    assert(s.push((k, v)).drop_last() =~= s);
    assert(s.push((k, v)).last() == (k, v));
}

pub proof fn lemma_kv_map_update<K, V>(s: Seq<(K, V)>, i: int, v: V)
    requires
        kv_unique(s),
        0 <= i < s.len(),
    ensures
        kv_map(s.update(i, (s[i].0, v))) =~= kv_map(s).insert(s[i].0, v),
    decreases s.len(),
{
    let k = s[i].0;
    let t = s.update(i, (k, v));
    if i == s.len() - 1 {
        assert(t.drop_last() =~= s.drop_last());
        assert(t.last() == (k, v));
    } else {
        assert(t.drop_last() =~= s.drop_last().update(i, (k, v)));
        assert(s.drop_last()[i] == s[i]);
        lemma_kv_map_update(s.drop_last(), i, v);
        assert(t.last() == s.last());
        assert(s.last().0 != k);
    }
}

pub proof fn lemma_kv_map_remove<K, V>(s: Seq<(K, V)>, i: int)
    requires
        kv_unique(s),
        0 <= i < s.len(),
    ensures
        kv_map(s.remove(i)) =~= kv_map(s).remove(s[i].0),
    decreases s.len(),
{
    let k = s[i].0;
    let t = s.remove(i);
    if i == s.len() - 1 {
        assert(t =~= s.drop_last());
        lemma_kv_map_dom(s.drop_last(), k);
        assert forall|j: int| 0 <= j < s.len() - 1 implies (#[trigger] s.drop_last()[j]).0 != k by {
            assert(s[j] == s.drop_last()[j]);
        }
        assert(!kv_map(s.drop_last()).contains_key(k));
        assert(kv_map(s.drop_last()) =~= kv_map(s.drop_last()).insert(k, s.last().1).remove(k));
    } else {
        assert(t.drop_last() =~= s.drop_last().remove(i));
        assert(s.drop_last()[i] == s[i]);
        lemma_kv_map_remove(s.drop_last(), i);
        assert(t.last() == s.last());
        assert(s.last().0 != k);
        assert(kv_map(t) == kv_map(s.drop_last().remove(i)).insert(s.last().0, s.last().1));
    }
}

/// Inserting an association sequence into `acc`, first pair first.
pub open spec fn kv_fold<K, V>(acc: Map<K, V>, s: Seq<(K, V)>) -> Map<K, V>
    decreases s.len(),
{
    if s.len() == 0 {
        acc
    } else {
        kv_fold(acc.insert(s[0].0, s[0].1), s.skip(1))
    }
}

pub proof fn lemma_kv_fold_push<K, V>(acc: Map<K, V>, s: Seq<(K, V)>, p: (K, V))
    ensures
        kv_fold(acc, s.push(p)) == kv_fold(acc, s).insert(p.0, p.1),
    decreases s.len(),
{
    if s.len() == 0 {
        assert(s.push(p)[0] == p);
        assert(s.push(p).skip(1) =~= Seq::<(K, V)>::empty());
        assert(kv_fold(acc, s.push(p)) == kv_fold(
            acc.insert(p.0, p.1),
            Seq::<(K, V)>::empty(),
        ));
    } else {
        assert(s.push(p)[0] == s[0]);
        assert(s.push(p).skip(1) =~= s.skip(1).push(p));
        let acc2 = acc.insert(s[0].0, s[0].1);
        lemma_kv_fold_push(acc2, s.skip(1), p);
        assert(kv_fold(acc, s.push(p)) == kv_fold(acc2, s.skip(1).push(p)));
        assert(kv_fold(acc, s) == kv_fold(acc2, s.skip(1)));
    }
}

/// Folding from the empty map is the map the sequence denotes.
pub proof fn lemma_kv_fold_is_map<K, V>(s: Seq<(K, V)>)
    ensures
        kv_fold(Map::<K, V>::empty(), s) == kv_map(s),
    decreases s.len(),
{
    if s.len() > 0 {
        let prefix = s.drop_last();
        lemma_kv_fold_is_map(prefix);
        lemma_kv_fold_push(Map::<K, V>::empty(), prefix, s.last());
        assert(prefix.push(s.last()) =~= s);
    }
}

/// Uniqueness survives overriding an existing key in place.
pub proof fn lemma_kv_unique_update<K, V>(s: Seq<(K, V)>, i: int, v: V)
    requires
        kv_unique(s),
        0 <= i < s.len(),
    ensures
        kv_unique(s.update(i, (s[i].0, v))),
{
}

/// Uniqueness survives appending a fresh key.
pub proof fn lemma_kv_unique_push<K, V>(s: Seq<(K, V)>, k: K, v: V)
    requires
        kv_unique(s),
        forall|i: int| 0 <= i < s.len() ==> (#[trigger] s[i]).0 != k,
    ensures
        kv_unique(s.push((k, v))),
{
}

/// Uniqueness survives removal.
pub proof fn lemma_kv_unique_remove<K, V>(s: Seq<(K, V)>, i: int)
    requires
        kv_unique(s),
        0 <= i < s.len(),
    ensures
        kv_unique(s.remove(i)),
{
}

} // verus!
