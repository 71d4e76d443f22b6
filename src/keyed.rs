//! Maps built from keyed entries where a later entry replaces an earlier one,
//! and the order in which keys first appear.
use vstd::prelude::*;

verus! {

/// The map from each key of `s` to the value of its last entry.
pub open spec fn keyed<V>(s: Seq<(Seq<char>, V)>) -> Map<Seq<char>, V>
    decreases s.len(),
{
    if s.len() == 0 {
        Map::empty()
    } else {
        keyed(s.drop_last()).insert(s.last().0, s.last().1)
    }
}

/// The keys of `s`, each once, in the order of their first entry.
pub open spec fn first_keys<V>(s: Seq<(Seq<char>, V)>) -> Seq<Seq<char>>
    decreases s.len(),
{
    if s.len() == 0 {
        Seq::empty()
    } else {
        let p = first_keys(s.drop_last());
        if p.contains(s.last().0) {
            p
        } else {
            p.push(s.last().0)
        }
    }
}

/// A key is in the map exactly when some entry has it.
pub proof fn lemma_keyed_dom<V>(s: Seq<(Seq<char>, V)>, k: Seq<char>)
    ensures
        keyed(s).dom().contains(k) <==> exists|j: int| 0 <= j < s.len() && s[j].0 == k,
    decreases s.len(),
{
    if s.len() > 0 {
        let p = s.drop_last();
        lemma_keyed_dom(p, k);
        if keyed(p).dom().contains(k) {
            let j = choose|j: int| 0 <= j < p.len() && p[j].0 == k;
            assert(s[j].0 == k);
        }
        if exists|j: int| 0 <= j < s.len() && s[j].0 == k {
            let j = choose|j: int| 0 <= j < s.len() && s[j].0 == k;
            if j < p.len() {
                assert(p[j].0 == k);
            }
        }
    }
}

/// The last entry of a key gives its value.
pub proof fn lemma_keyed_last<V>(s: Seq<(Seq<char>, V)>, j: int)
    requires
        0 <= j < s.len(),
        forall|m: int| j < m < s.len() ==> s[m].0 != s[j].0,
    ensures
        keyed(s).dom().contains(s[j].0),
        keyed(s)[s[j].0] == s[j].1,
    decreases s.len(),
{
    if j < s.len() - 1 {
        let p = s.drop_last();
        assert forall|m: int| j < m < p.len() implies p[m].0 != p[j].0 by {
            assert(p[m] == s[m]);
        }
        lemma_keyed_last(p, j);
    }
}

/// Each value of the map is that of some entry with its key.
pub proof fn lemma_keyed_value<V>(s: Seq<(Seq<char>, V)>, k: Seq<char>)
    requires
        keyed(s).dom().contains(k),
    ensures
        exists|j: int| 0 <= j < s.len() && s[j] == (k, keyed(s)[k]),
    decreases s.len(),
{
    let p = s.drop_last();
    if s.last().0 == k {
        assert(s[s.len() - 1] == (k, keyed(s)[k]));
    } else {
        lemma_keyed_value(p, k);
        let j = choose|j: int| 0 <= j < p.len() && p[j] == (k, keyed(p)[k]);
        assert(s[j] == (k, keyed(s)[k]));
    }
}

/// The first keys are the map's keys, each once.
pub proof fn lemma_first_keys<V>(s: Seq<(Seq<char>, V)>)
    ensures
        first_keys(s).no_duplicates(),
        forall|k: Seq<char>| first_keys(s).contains(k) <==> keyed(s).dom().contains(k),
    decreases s.len(),
{
    if s.len() > 0 {
        let p = first_keys(s.drop_last());
        lemma_first_keys(s.drop_last());
        let x = s.last().0;
        assert forall|k: Seq<char>| p.push(x).contains(k) <==> (p.contains(k) || k == x) by {
            if p.push(x).contains(k) {
                let i = choose|i: int| 0 <= i < p.push(x).len() && p.push(x)[i] == k;
                if i < p.len() {
                    assert(p[i] == k);
                }
            }
            if p.contains(k) {
                let i = choose|i: int| 0 <= i < p.len() && p[i] == k;
                assert(p.push(x)[i] == k);
            }
            if k == x {
                assert(p.push(x)[p.len() as int] == k);
            }
        }
        assert(keyed(s).dom() == keyed(s.drop_last()).dom().insert(x));
        assert forall|k: Seq<char>|
            first_keys(s).contains(k) <==> keyed(s).dom().contains(k) by {
            assert(keyed(s.drop_last()).dom().contains(k) <==> p.contains(k));
            assert(keyed(s).dom().contains(k) <==> (p.contains(k) || k == x));
            if p.contains(x) {
                assert(first_keys(s) == p);
            } else {
                assert(first_keys(s) == p.push(x));
            }
        }
    }
}

/// There are as many first keys as the map has keys.
pub proof fn lemma_first_keys_len<V>(s: Seq<(Seq<char>, V)>)
    ensures
        first_keys(s).len() == keyed(s).dom().len(),
{
    lemma_first_keys(s);
    first_keys(s).unique_seq_to_set();
    assert(first_keys(s).to_set() =~= keyed(s).dom());
}

} // verus!
