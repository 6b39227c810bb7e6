//! Keyed lists: a list of (key, value) pairs read as a map from key to value,
//! where a later pair overrides an earlier one with the same key.

use vstd::prelude::*;

verus! {

/// The map that a list of pairs stands for: inserting the pairs in order.
pub open spec fn entries_map<V: View>(s: Seq<(String, V)>) -> Map<Seq<char>, V::V>
    decreases s.len(),
{
    if s.len() == 0 {
        Map::empty()
    } else {
        entries_map(s.drop_last()).insert(s.last().0@, s.last().1@)
    }
}

/// No key occurs twice in the list.
pub open spec fn keys_distinct<V>(s: Seq<(String, V)>) -> bool {
    forall|i: int, j: int| 0 <= i < j < s.len() ==> s[i].0@ != s[j].0@
}

/// The list holds a pair with key `k`.
pub open spec fn has_key<V>(s: Seq<(String, V)>, k: Seq<char>) -> bool {
    exists|i: int| 0 <= i < s.len() && s[i].0@ == k
}

pub proof fn lemma_entries_map_push<V: View>(s: Seq<(String, V)>, e: (String, V))
    ensures
        entries_map(s.push(e)) == entries_map(s).insert(e.0@, e.1@),
{
    assert(s.push(e).drop_last() =~= s);
}

pub proof fn lemma_entries_map_dom<V: View>(s: Seq<(String, V)>, k: Seq<char>)
    ensures
        entries_map(s).dom().contains(k) <==> has_key(s, k),
    decreases s.len(),
{
    if s.len() > 0 {
        let t = s.drop_last();
        lemma_entries_map_dom(t, k);
        if has_key(t, k) {
            let i = choose|i: int| 0 <= i < t.len() && t[i].0@ == k;
            assert(s[i].0@ == k);
        }
        if has_key(s, k) && s.last().0@ != k {
            let i = choose|i: int| 0 <= i < s.len() && s[i].0@ == k;
            assert(t[i].0@ == k);
        }
    }
}

pub proof fn lemma_entries_map_value<V: View>(s: Seq<(String, V)>, i: int)
    requires
        keys_distinct(s),
        0 <= i < s.len(),
    ensures
        entries_map(s).dom().contains(s[i].0@),
        entries_map(s)[s[i].0@] == s[i].1@,
    decreases s.len(),
{
    lemma_entries_map_dom(s, s[i].0@);
    if i < s.len() - 1 {
        let t = s.drop_last();
        assert(t[i] == s[i]);
        lemma_entries_map_value(t, i);
    }
}

pub proof fn lemma_entries_map_len<V: View>(s: Seq<(String, V)>)
    requires
        keys_distinct(s),
    ensures
        entries_map(s).dom().finite(),
        entries_map(s).dom().len() == s.len(),
    decreases s.len(),
{
    if s.len() > 0 {
        let t = s.drop_last();
        lemma_entries_map_len(t);
        lemma_entries_map_dom(t, s.last().0@);
        if has_key(t, s.last().0@) {
            let i = choose|i: int| 0 <= i < t.len() && t[i].0@ == s.last().0@;
            assert(s[i].0@ == s[s.len() - 1].0@);
        }
    }
}

/// Replacing the pair at `i` by one with an equal key sets that key in the map.
pub proof fn lemma_entries_map_update<V: View>(s: Seq<(String, V)>, i: int, e: (String, V))
    requires
        keys_distinct(s),
        0 <= i < s.len(),
        e.0@ == s[i].0@,
    ensures
        keys_distinct(s.update(i, e)),
        entries_map(s.update(i, e)) == entries_map(s).insert(e.0@, e.1@),
    decreases s.len(),
{
    let u = s.update(i, e);
    let k = s[i].0@;
    if i == s.len() - 1 {
        assert(u.drop_last() =~= s.drop_last());
        assert(entries_map(u) =~= entries_map(s).insert(k, e.1@));
    } else {
        let t = s.drop_last();
        lemma_entries_map_update(t, i, e);
        assert(u.drop_last() =~= t.update(i, e));
        assert(s.last().0@ != k);
        assert(entries_map(u) =~= entries_map(s).insert(k, e.1@));
    }
}

/// Lists with the same keys and values, pair by pair, stand for the same map.
pub proof fn lemma_entries_map_same_keys<V: View>(s: Seq<(String, V)>, t: Seq<(String, V)>)
    requires
        s.len() == t.len(),
        forall|i: int| 0 <= i < s.len() ==> (#[trigger] s[i]).0@ == t[i].0@ && s[i].1 == t[i].1,
    ensures
        entries_map(s) == entries_map(t),
        keys_distinct(s) == keys_distinct(t),
    decreases s.len(),
{
    if s.len() > 0 {
        lemma_entries_map_same_keys(s.drop_last(), t.drop_last());
        assert(s.last().0@ == t.last().0@);
    }
    if keys_distinct(s) != keys_distinct(t) {
        if !keys_distinct(s) {
            let (i, j) = choose|i: int, j: int| 0 <= i < j < s.len() && s[i].0@ == s[j].0@;
            assert(t[i].0@ == t[j].0@);
        } else {
            let (i, j) = choose|i: int, j: int| 0 <= i < j < t.len() && t[i].0@ == t[j].0@;
            assert(s[i].0@ == s[j].0@);
        }
    }
}

/// The position of the pair with key `key`, if there is one.
pub fn find_key<V>(entries: &Vec<(String, V)>, key: &String) -> (r: Option<usize>)
    ensures
        r matches Some(i) ==> i < entries@.len() && entries@[i as int].0@ == key@,
        r is None ==> !has_key(entries@, key@),
{
    let mut i: usize = 0;
    while i < entries.len()
        invariant
            i <= entries@.len(),
            forall|j: int| 0 <= j < i ==> entries@[j].0@ != key@,
        decreases entries@.len() - i,
    {
        if entries[i].0 == *key {
            return Some(i);
        }
        i += 1;
    }
    None
}

/// Collects pairs into a keyed list without repeated keys, a later pair
/// replacing the value of an earlier one with the same key.
pub fn collect_entries<V: View>(pairs: Vec<(String, V)>) -> (r: Vec<(String, V)>)
    ensures
        keys_distinct(r@),
        entries_map(r@) == entries_map(pairs@),
        forall|i: int| #![trigger r@[i]] 0 <= i < r@.len() ==> exists|j: int| 0 <= j < pairs@.len() && r@[i].1 == pairs@[j].1,
{
    let ghost all = pairs@;
    let mut rest = pairs;
    let mut r: Vec<(String, V)> = Vec::new();
    while rest.len() > 0
        invariant
            rest@.len() <= all.len(),
            rest@ == all.skip(all.len() - rest@.len()),
            keys_distinct(r@),
            entries_map(r@) == entries_map(all.take(all.len() - rest@.len())),
            forall|i: int| #![trigger r@[i]] 0 <= i < r@.len() ==> exists|j: int| 0 <= j < all.len() && r@[i].1 == all[j].1,
        decreases rest@.len(),
    {
        let ghost done = all.len() - rest@.len();
        let ghost old_rest = rest@;
        let e = rest.remove(0);
        proof {
            assert(old_rest[0] == all[done]);
            assert(e == all[done]);
            assert(rest@ =~= all.skip(all.len() - rest@.len()));
            assert(all.take(done + 1) =~= all.take(done).push(e));
            lemma_entries_map_push(all.take(done), e);
        }
        match find_key(&r, &e.0) {
            Some(i) => {
                let ghost before = r@;
                let _old = r.remove(i);
                r.insert(i, e);
                proof {
                    assert(r@ =~= before.update(i as int, e));
                    lemma_entries_map_update(before, i as int, e);
                    assert forall|x: int| #![trigger r@[x]] 0 <= x < r@.len() implies exists|j: int| 0 <= j < all.len() && r@[x].1 == all[j].1 by {
                        if x == i {
                            assert(r@[x].1 == all[done].1);
                        } else {
                            assert(r@[x] == before[x]);
                        }
                    }
                }
            },
            None => {
                let ghost before = r@;
                r.push(e);
                proof {
                    lemma_entries_map_push(before, e);
                    assert forall|x: int| #![trigger r@[x]] 0 <= x < r@.len() implies exists|j: int| 0 <= j < all.len() && r@[x].1 == all[j].1 by {
                        if x == before.len() {
                            assert(r@[x].1 == all[done].1);
                        } else {
                            assert(r@[x] == before[x]);
                        }
                    }
                    assert forall|a: int, b: int| 0 <= a < b < r@.len() implies r@[a].0@ != r@[b].0@ by {
                        if b == before.len() {
                            assert(before[a].0@ != e.0@);
                        }
                    }
                }
            },
        }
    }
    proof {
        assert(all.take(all.len() as int) =~= all);
    }
    r
}

} // verus!
