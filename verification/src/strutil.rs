//! Character-level string helpers shared by the parser and the registry.

use vstd::prelude::*;

verus! {

/// Whether two string slices hold the same sequence of characters.
pub fn str_eq(a: &str, b: &str) -> (r: bool)
    ensures
        r == (a@ == b@),
{
    let alen = a.unicode_len();
    let blen = b.unicode_len();
    if alen != blen {
        assert(a@ != b@) by {
            assert(a@.len() != b@.len());
        }
        return false;
    }
    let mut i: usize = 0;
    while i < alen
        invariant
            i <= alen,
            alen == a@.len(),
            alen == b@.len(),
            forall|j: int| 0 <= j < i ==> a@[j] == b@[j],
        decreases alen - i,
    {
        if a.get_char(i) != b.get_char(i) {
            return false;
        }
        i = i + 1;
    }
    assert(a@ =~= b@);
    true
}

} // verus!

verus! {

/// The set of character sequences the strings of `v` hold.
pub open spec fn str_set(v: Vec<String>) -> Set<Seq<char>> {
    Set::new(|k: Seq<char>| exists|i: int| 0 <= i < v.len() && v[i]@ == k)
}

/// Whether any string in `v` holds the characters of `key`.
pub fn str_vec_contains(v: &Vec<String>, key: &str) -> (r: bool)
    ensures
        r == str_set(*v).contains(key@),
{
    broadcast use vstd::set::group_set_axioms, vstd::seq::group_seq_axioms;

    let mut i: usize = 0;
    while i < v.len()
        invariant
            i <= v.len(),
            forall|j: int| 0 <= j < i ==> v[j]@ != key@,
        decreases v.len() - i,
    {
        if str_eq(v[i].as_str(), key) {
            proof {
                assert(v@[i as int]@ == key@);
            }
            return true;
        }
        i = i + 1;
    }
    proof {
        if str_set(*v).contains(key@) {
            let j = choose|j: int| 0 <= j < v.len() && v@[j]@ == key@;
        }
    }
    false
}

} // verus!
