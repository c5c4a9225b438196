//! Finite maps kept as sequences of keyed entries with distinct keys.
use vstd::prelude::*;

verus! {

/// The map whose entries are those of `s`; a later entry wins over an
/// earlier one with the same key.
pub open spec fn keyed<V>(s: Seq<(Seq<char>, V)>) -> Map<Seq<char>, V>
    decreases s.len(),
{
    if s.len() == 0 {
        Map::empty()
    } else {
        keyed(s.drop_last()).insert(s.last().0, s.last().1)
    }
}

/// No two entries of `s` share a key.
pub open spec fn keys_unique<V>(s: Seq<(Seq<char>, V)>) -> bool {
    forall|i: int, j: int| 0 <= i < s.len() && 0 <= j < s.len() && i != j ==> s[i].0 != s[j].0
}

pub proof fn lemma_keyed_domain<V>(s: Seq<(Seq<char>, V)>, k: Seq<char>)
    ensures
        keyed(s).contains_key(k) <==> exists|i: int| 0 <= i < s.len() && s[i].0 == k,
    decreases s.len(),
{
    if s.len() > 0 {
        let d = s.drop_last();
        lemma_keyed_domain(d, k);
        if keyed(d).contains_key(k) {
            let i = choose|i: int| 0 <= i < d.len() && d[i].0 == k;
            assert(s[i].0 == k);
        }
        if exists|i: int| 0 <= i < s.len() && s[i].0 == k {
            let i = choose|i: int| 0 <= i < s.len() && s[i].0 == k;
            if i < s.len() - 1 {
                assert(d[i].0 == k);
            }
        }
    }
}

pub proof fn lemma_keyed_index<V>(s: Seq<(Seq<char>, V)>, i: int)
    requires
        keys_unique(s),
        0 <= i < s.len(),
    ensures
        keyed(s).contains_key(s[i].0),
        keyed(s)[s[i].0] == s[i].1,
    decreases s.len(),
{
    if i < s.len() - 1 {
        let d = s.drop_last();
        assert(s[i].0 != s[s.len() - 1].0);
        lemma_keyed_index(d, i);
    }
}

pub proof fn lemma_keyed_push<V>(s: Seq<(Seq<char>, V)>, e: (Seq<char>, V))
    requires
        keys_unique(s),
        !keyed(s).contains_key(e.0),
    ensures
        keyed(s.push(e)) == keyed(s).insert(e.0, e.1),
        keys_unique(s.push(e)),
{
    assert(s.push(e).drop_last() =~= s);
    assert forall|i: int| 0 <= i < s.len() implies s[i].0 != e.0 by {
        lemma_keyed_index(s, i);
    }
}

pub proof fn lemma_keyed_update<V>(s: Seq<(Seq<char>, V)>, i: int, v: V)
    requires
        keys_unique(s),
        0 <= i < s.len(),
    ensures
        keyed(s.update(i, (s[i].0, v))) == keyed(s).insert(s[i].0, v),
        keys_unique(s.update(i, (s[i].0, v))),
    decreases s.len(),
{
    let t = s.update(i, (s[i].0, v));
    let d = s.drop_last();
    if i == s.len() - 1 {
        assert(t.drop_last() =~= d);
        assert(keyed(t) =~= keyed(s).insert(s[i].0, v));
    } else {
        assert(t.drop_last() =~= d.update(i, (d[i].0, v)));
        lemma_keyed_update(d, i, v);
        assert(s[i].0 != s.last().0);
        assert(keyed(t) =~= keyed(s).insert(s[i].0, v));
    }
}

pub proof fn lemma_keyed_remove<V>(s: Seq<(Seq<char>, V)>, i: int)
    requires
        keys_unique(s),
        0 <= i < s.len(),
    ensures
        keyed(s.remove(i)) == keyed(s).remove(s[i].0),
        keys_unique(s.remove(i)),
    decreases s.len(),
{
    let t = s.remove(i);
    let d = s.drop_last();
    if i == s.len() - 1 {
        assert(t =~= d);
        if keyed(d).contains_key(s[i].0) {
            lemma_keyed_domain(d, s[i].0);
            let j = choose|j: int| 0 <= j < d.len() && d[j].0 == s[i].0;
            assert(s[j].0 == s[i].0);
        }
        assert(keyed(t) =~= keyed(s).remove(s[i].0));
    } else {
        assert(t.drop_last() =~= d.remove(i));
        assert(t.last() == s.last());
        lemma_keyed_remove(d, i);
        assert(s[i].0 != s.last().0);
        assert(keyed(t) =~= keyed(s).remove(s[i].0));
    }
}

} // verus!
