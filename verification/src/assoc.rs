//! Name-keyed association vectors with distinct keys, modelled as maps from
//! character sequences to the values' views.

use vstd::prelude::*;
use crate::strutil::str_eq;

verus! {

broadcast use vstd::seq::group_seq_axioms, vstd::map::group_map_axioms;

/// Whether the keys of `s` are pairwise distinct.
pub open spec fn akeys_distinct<V>(s: Seq<(String, V)>) -> bool {
    forall|i: int, j: int| 0 <= i < j < s.len() ==> s[i].0@ != s[j].0@
}

/// Whether some entry of `s` has key `k`.
pub open spec fn acontains<V>(s: Seq<(String, V)>, k: Seq<char>) -> bool {
    exists|i: int| 0 <= i < s.len() && s[i].0@ == k
}

/// The position of the entry with key `k`, when there is exactly one.
pub open spec fn aindex<V>(s: Seq<(String, V)>, k: Seq<char>) -> int {
    choose|i: int| 0 <= i < s.len() && s[i].0@ == k
}

/// The map that `s` represents: each key to its value's view.
pub open spec fn amap<V: View>(s: Seq<(String, V)>) -> Map<Seq<char>, V::V> {
    Map::new(|k: Seq<char>| acontains(s, k), |k: Seq<char>| s[aindex(s, k)].1@)
}

/// With distinct keys, a matching position is the position `aindex` picks.
pub proof fn lemma_aindex_unique<V>(s: Seq<(String, V)>, k: Seq<char>, i: int)
    requires
        akeys_distinct(s),
        0 <= i < s.len(),
        s[i].0@ == k,
    ensures
        aindex(s, k) == i,
        acontains(s, k),
{
    assert(acontains(s, k));
    let j = aindex(s, k);
    assert(0 <= j < s.len() && s[j].0@ == k);
    if i < j {
        assert(s[i].0@ != s[j].0@);
    } else if j < i {
        assert(s[j].0@ != s[i].0@);
    }
}

/// With distinct keys, the map hands each entry's view back at its key.
pub proof fn lemma_amap_at<V: View>(s: Seq<(String, V)>, i: int)
    requires
        akeys_distinct(s),
        0 <= i < s.len(),
    ensures
        amap(s).contains_key(s[i].0@),
        amap(s)[s[i].0@] == s[i].1@,
{
    lemma_aindex_unique(s, s[i].0@, i);
}

/// Finds the position of the entry with key `key`, scanning from the front.
pub fn afind<V>(v: &Vec<(String, V)>, key: &str) -> (r: Option<usize>)
    ensures
        match r {
            Some(i) => i < v.len() && v@[i as int].0@ == key@,
            None => !acontains(v@, key@),
        },
{
    let mut i: usize = 0;
    while i < v.len()
        invariant
            i <= v.len(),
            forall|j: int| 0 <= j < i ==> v@[j].0@ != key@,
        decreases v.len() - i,
    {
        if str_eq(v[i].0.as_str(), key) {
            return Some(i);
        }
        i = i + 1;
    }
    None
}

/// A borrow of the value stored under `key`, if any.
pub fn aget<'a, V: View>(v: &'a Vec<(String, V)>, key: &str) -> (r: Option<&'a V>)
    requires
        akeys_distinct(v@),
    ensures
        match r {
            Some(val) => amap(v@).contains_key(key@) && val@ == amap(v@)[key@],
            None => !amap(v@).contains_key(key@),
        },
{
    match afind(v, key) {
        Some(i) => {
            proof {
                lemma_amap_at(v@, i as int);
            }
            Some(&v[i].1)
        },
        None => None,
    }
}

/// Whether a value is stored under `key`.
pub fn acontains_key<V: View>(v: &Vec<(String, V)>, key: &str) -> (r: bool)
    requires
        akeys_distinct(v@),
    ensures
        r == amap(v@).contains_key(key@),
{
    match afind(v, key) {
        Some(i) => {
            proof {
                lemma_amap_at(v@, i as int);
            }
            true
        },
        None => false,
    }
}

/// Stores `val` under `key`: replaces the entry of that key, or appends one.
pub fn ainsert<V: View>(v: &mut Vec<(String, V)>, key: &str, val: V)
    requires
        akeys_distinct(old(v)@),
    ensures
        akeys_distinct(final(v)@),
        amap(final(v)@) == amap(old(v)@).insert(key@, val@),
{
    let ghost s0 = v@;
    match afind(v, key) {
        Some(i) => {
            v.set(i, (key.to_owned(), val));
            proof {
                let s1 = v@;
                assert forall|k: Seq<char>| #[trigger]
                    acontains(s1, k) == (acontains(s0, k) || k == key@) by {
                    if acontains(s1, k) {
                        let j = choose|j: int| 0 <= j < s1.len() && s1[j].0@ == k;
                        if j != i {
                            assert(s0[j].0@ == k);
                        }
                    }
                    if acontains(s0, k) {
                        let j = choose|j: int| 0 <= j < s0.len() && s0[j].0@ == k;
                        if j != i {
                            assert(s1[j].0@ == k);
                        } else {
                            assert(s1[i as int].0@ == key@ && s0[i as int].0@ == key@ && k == key@);
                        }
                    }
                    if k == key@ {
                        assert(s1[i as int].0@ == k);
                    }
                }
                assert forall|a: int, b: int| 0 <= a < b < s1.len() implies s1[a].0@
                    != s1[b].0@ by {
                    assert(s0[a].0@ != s0[b].0@);
                }
                assert forall|k: Seq<char>| acontains(s1, k) implies #[trigger] amap(s1)[k]
                    == amap(s0).insert(key@, val@)[k] by {
                    let j = aindex(s1, k);
                    assert(0 <= j < s1.len() && s1[j].0@ == k);
                    if k == key@ {
                        lemma_aindex_unique(s1, k, i as int);
                    } else {
                        assert(j != i);
                        lemma_aindex_unique(s0, k, j);
                    }
                }
                assert(amap(v@) =~= amap(s0).insert(key@, val@));
            }
        },
        None => {
            v.push((key.to_owned(), val));
            proof {
                let s1 = v@;
                let n = s0.len() as int;
                assert(s1.len() == n + 1);
                assert(s1[n].0@ == key@);
                assert forall|a: int, b: int| 0 <= a < b < s1.len() implies s1[a].0@
                    != s1[b].0@ by {
                    if b < n {
                        assert(s0[a].0@ != s0[b].0@);
                    } else {
                        assert(s1[b].0@ == key@);
                        assert(s0[a].0@ != key@) by {
                            if s0[a].0@ == key@ {
                                assert(acontains(s0, key@));
                            }
                        }
                    }
                }
                assert forall|k: Seq<char>| acontains(s1, k) implies #[trigger] amap(s1)[k]
                    == amap(s0).insert(key@, val@)[k] by {
                    let j = aindex(s1, k);
                    assert(0 <= j < s1.len() && s1[j].0@ == k);
                    if k == key@ {
                        lemma_aindex_unique(s1, k, n);
                    } else {
                        assert(j != n);
                        assert(s0[j].0@ == k);
                        lemma_aindex_unique(s0, k, j);
                    }
                }
                assert forall|k: Seq<char>| #[trigger]
                    acontains(s1, k) == (acontains(s0, k) || k == key@) by {
                    if acontains(s1, k) {
                        let j = choose|j: int| 0 <= j < s1.len() && s1[j].0@ == k;
                        if j < n {
                            assert(s0[j].0@ == k);
                        }
                    }
                    if acontains(s0, k) {
                        let j = choose|j: int| 0 <= j < s0.len() && s0[j].0@ == k;
                        assert(s1[j].0@ == k);
                    }
                    if k == key@ {
                        assert(s1[n].0@ == k);
                    }
                }
                assert(amap(v@) =~= amap(s0).insert(key@, val@));
            }
        },
    }
}

/// Removes the entry stored under `key`, if any.
pub fn aremove<V: View>(v: &mut Vec<(String, V)>, key: &str)
    requires
        akeys_distinct(old(v)@),
    ensures
        akeys_distinct(final(v)@),
        amap(final(v)@) == amap(old(v)@).remove(key@),
{
    let ghost s0 = v@;
    match afind(v, key) {
        Some(i) => {
            v.remove(i);
            proof {
                let s1 = v@;
                let n = i as int;
                assert(s1 =~= s0.subrange(0, n) + s0.subrange(n + 1, s0.len() as int));
                assert forall|j: int| 0 <= j < s1.len() implies s1[j] == (if j < n {
                    s0[j]
                } else {
                    s0[j + 1]
                }) by {}
                assert forall|a: int, b: int| 0 <= a < b < s1.len() implies s1[a].0@
                    != s1[b].0@ by {}
                assert forall|k: Seq<char>| #[trigger]
                    acontains(s1, k) == (acontains(s0, k) && k != key@) by {
                    if acontains(s1, k) {
                        let j = choose|j: int| 0 <= j < s1.len() && s1[j].0@ == k;
                        if j < n {
                            assert(s0[j].0@ == k);
                            assert(k != key@) by {
                                if k == key@ {
                                    assert(s0[j].0@ != s0[n].0@);
                                }
                            }
                        } else {
                            assert(s0[j + 1].0@ == k);
                            assert(k != key@) by {
                                if k == key@ {
                                    assert(s0[n].0@ != s0[j + 1].0@);
                                }
                            }
                        }
                    }
                    if acontains(s0, k) && k != key@ {
                        let j = choose|j: int| 0 <= j < s0.len() && s0[j].0@ == k;
                        assert(j != n);
                        if j < n {
                            assert(s1[j].0@ == k);
                        } else {
                            assert(s1[j - 1].0@ == k);
                        }
                    }
                }
                assert forall|k: Seq<char>| acontains(s1, k) implies #[trigger] amap(s1)[k]
                    == amap(s0).remove(key@)[k] by {
                    let j = aindex(s1, k);
                    assert(0 <= j < s1.len() && s1[j].0@ == k);
                    if j < n {
                        lemma_aindex_unique(s0, k, j);
                    } else {
                        lemma_aindex_unique(s0, k, j + 1);
                    }
                }
                assert(amap(v@) =~= amap(s0).remove(key@));
            }
        },
        None => {
            proof {
                assert forall|k: Seq<char>| acontains(s0, k) implies k != key@ by {}
                assert(amap(v@) =~= amap(s0).remove(key@));
            }
        },
    }
}

} // verus!

verus! {

/// The map an association vector represents has a finite domain.
pub proof fn lemma_amap_dom_finite<V: View>(s: Seq<(String, V)>)
    ensures
        amap(s).dom().finite(),
    decreases s.len(),
{
    broadcast use vstd::set::group_set_axioms;

    if s.len() == 0 {
        assert forall|k: Seq<char>| !#[trigger] acontains(s, k) by {}
        assert(amap(s).dom() =~= Set::<Seq<char>>::empty());
    } else {
        let rest = s.drop_last();
        lemma_amap_dom_finite(rest);
        let n = s.len() as int - 1;
        assert forall|k: Seq<char>| #[trigger]
            acontains(s, k) == (acontains(rest, k) || k == s[n].0@) by {
            if acontains(s, k) {
                let j = choose|j: int| 0 <= j < s.len() && s[j].0@ == k;
                if j < n {
                    assert(rest[j].0@ == k);
                }
            }
            if acontains(rest, k) {
                let j = choose|j: int| 0 <= j < rest.len() && rest[j].0@ == k;
                assert(s[j].0@ == k);
            }
            if k == s[n].0@ {
                assert(s[n].0@ == k);
            }
        }
        assert(amap(s).dom() =~= amap(rest).dom().insert(s[n].0@));
    }
}

} // verus!
