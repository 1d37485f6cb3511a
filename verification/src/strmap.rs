//! Sets and maps of strings kept in vectors, without repetition.
use vstd::prelude::*;

verus! {

/// The strings of `v`, as a set.
pub open spec fn str_set(v: Seq<String>) -> Set<Seq<char>> {
    Set::new(|s: Seq<char>| has_str(v, s))
}

/// Some entry of `v` is `s`.
pub open spec fn has_str(v: Seq<String>, s: Seq<char>) -> bool {
    exists|i: int| 0 <= i < v.len() && v[i]@ == s
}

/// No string occurs twice in `v`.
pub open spec fn strs_distinct(v: Seq<String>) -> bool {
    forall|i: int, j: int| 0 <= i < v.len() && 0 <= j < v.len() && i != j ==> v[i]@ != v[j]@
}

/// Some entry of `v` has key `k`.
pub open spec fn has_key(v: Seq<(String, String)>, k: Seq<char>) -> bool {
    exists|i: int| 0 <= i < v.len() && v[i].0@ == k
}

/// No key occurs twice in `v`.
pub open spec fn keys_distinct(v: Seq<(String, String)>) -> bool {
    forall|i: int, j: int| 0 <= i < v.len() && 0 <= j < v.len() && i != j ==> v[i].0@ != v[j].0@
}

/// The key/value pairs of `v`, as a map.
pub open spec fn pair_map(v: Seq<(String, String)>) -> Map<Seq<char>, Seq<char>> {
    Map::new(
        |k: Seq<char>| has_key(v, k),
        |k: Seq<char>| v[choose|i: int| 0 <= i < v.len() && v[i].0@ == k].1@,
    )
}

/// The map built by inserting the pairs of `v` one after the other, so that
/// a later pair replaces an earlier one with the same key.
pub open spec fn fold_pairs(v: Seq<(String, String)>) -> Map<Seq<char>, Seq<char>>
    decreases v.len(),
{
    if v.len() == 0 {
        Map::empty()
    } else {
        fold_pairs(v.drop_last()).insert(v.last().0@, v.last().1@)
    }
}

pub proof fn lemma_pair_map_at(v: Seq<(String, String)>, i: int)
    requires
        keys_distinct(v),
        0 <= i < v.len(),
    ensures
        pair_map(v).contains_key(v[i].0@),
        pair_map(v)[v[i].0@] == v[i].1@,
{
    assert(has_key(v, v[i].0@));
    let j = choose|j: int| 0 <= j < v.len() && v[j].0@ == v[i].0@;
    assert(j == i);
}

/// Position of `s` in `v`, if it occurs.
pub fn find_str(v: &Vec<String>, s: &String) -> (r: Option<usize>)
    ensures
        match r {
            Some(i) => i < v@.len() && v@[i as int]@ == s@,
            None => !has_str(v@, s@),
        },
{
    let n = v.len();
    for i in 0..n
        invariant
            n == v@.len(),
            forall|j: int| 0 <= j < i ==> v@[j]@ != s@,
    {
        if v[i] == *s {
            return Some(i);
        }
    }
    None
}

/// Position of the pair with key `k` in `v`, if any.
pub fn find_key(v: &Vec<(String, String)>, k: &String) -> (r: Option<usize>)
    ensures
        match r {
            Some(i) => i < v@.len() && v@[i as int].0@ == k@,
            None => !has_key(v@, k@),
        },
{
    let n = v.len();
    for i in 0..n
        invariant
            n == v@.len(),
            forall|j: int| 0 <= j < i ==> v@[j].0@ != k@,
    {
        if v[i].0 == *k {
            return Some(i);
        }
    }
    None
}

/// Adds `s` to the set `v`.
pub fn set_insert(v: &mut Vec<String>, s: String)
    requires
        strs_distinct(old(v)@),
    ensures
        strs_distinct(final(v)@),
        str_set(final(v)@) == str_set(old(v)@).insert(s@),
{
    match find_str(v, &s) {
        Some(_) => {
            assert(str_set(v@) =~= str_set(v@).insert(s@)) by {
                assert(has_str(v@, s@));
            }
        },
        None => {
            let ghost old_v = v@;
            v.push(s);
            assert forall|t: Seq<char>| #[trigger] has_str(v@, t) <==> (has_str(old_v, t) || t == s@) by {
                if has_str(v@, t) {
                    let i = choose|i: int| 0 <= i < v@.len() && v@[i]@ == t;
                    if i < old_v.len() {
                        assert(old_v[i]@ == t);
                    }
                }
                if has_str(old_v, t) {
                    let i = choose|i: int| 0 <= i < old_v.len() && old_v[i]@ == t;
                    assert(v@[i]@ == t);
                }
                if t == s@ {
                    assert(v@[old_v.len() as int]@ == t);
                }
            }
            assert(str_set(v@) =~= str_set(old_v).insert(s@));
        },
    }
}

/// Sets the value of key `k` to `val` in the map `v`.
pub fn map_insert(v: &mut Vec<(String, String)>, k: String, val: String)
    requires
        keys_distinct(old(v)@),
    ensures
        keys_distinct(final(v)@),
        pair_map(final(v)@) == pair_map(old(v)@).insert(k@, val@),
{
    let ghost old_v = v@;
    let ghost kv = k@;
    let ghost vv = val@;
    match find_key(v, &k) {
        Some(i) => {
            v.set(i, (k, val));
            assert(keys_distinct(v@));
            assert forall|t: Seq<char>| #[trigger] has_key(v@, t) <==> has_key(old_v, t) by {
                if has_key(v@, t) {
                    let j = choose|j: int| 0 <= j < v@.len() && v@[j].0@ == t;
                    assert(old_v[j].0@ == t);
                }
                if has_key(old_v, t) {
                    let j = choose|j: int| 0 <= j < old_v.len() && old_v[j].0@ == t;
                    assert(v@[j].0@ == t);
                }
            }
            assert(has_key(old_v, kv));
            assert forall|t: Seq<char>| #[trigger] pair_map(v@).contains_key(t) implies pair_map(
                v@,
            )[t] == pair_map(old_v).insert(kv, vv)[t] by {
                let j = choose|j: int| 0 <= j < v@.len() && v@[j].0@ == t;
                lemma_pair_map_at(v@, j);
                if j != i {
                    lemma_pair_map_at(old_v, j);
                }
            }
            assert(pair_map(v@) =~= pair_map(old_v).insert(kv, vv));
        },
        None => {
            v.push((k, val));
            assert(keys_distinct(v@));
            assert forall|t: Seq<char>| #[trigger] has_key(v@, t) <==> (has_key(old_v, t) || t == kv) by {
                if has_key(v@, t) {
                    let j = choose|j: int| 0 <= j < v@.len() && v@[j].0@ == t;
                    if j < old_v.len() {
                        assert(old_v[j].0@ == t);
                    }
                }
                if has_key(old_v, t) {
                    let j = choose|j: int| 0 <= j < old_v.len() && old_v[j].0@ == t;
                    assert(v@[j].0@ == t);
                }
                if t == kv {
                    assert(v@[old_v.len() as int].0@ == t);
                }
            }
            assert forall|t: Seq<char>| #[trigger] pair_map(v@).contains_key(t) implies pair_map(
                v@,
            )[t] == pair_map(old_v).insert(kv, vv)[t] by {
                let j = choose|j: int| 0 <= j < v@.len() && v@[j].0@ == t;
                lemma_pair_map_at(v@, j);
                if j < old_v.len() {
                    lemma_pair_map_at(old_v, j);
                }
            }
            assert(pair_map(v@) =~= pair_map(old_v).insert(kv, vv));
        },
    }
}

/// A vector without repetition has as many entries as its set has elements.
pub proof fn lemma_distinct_len(v: Seq<String>)
    requires
        strs_distinct(v),
    ensures
        str_set(v).finite(),
        str_set(v).len() == v.len(),
    decreases v.len(),
{
    if v.len() == 0 {
        assert(str_set(v) =~= Set::empty());
    } else {
        let w = v.drop_last();
        assert(strs_distinct(w));
        lemma_distinct_len(w);
        assert(str_set(v) =~= str_set(w).insert(v.last()@)) by {
            assert forall|t: Seq<char>| has_str(v, t) == (has_str(w, t) || t == v.last()@) by {
                if has_str(v, t) {
                    let i = choose|i: int| 0 <= i < v.len() && v[i]@ == t;
                    if i < w.len() {
                        assert(w[i]@ == t);
                    }
                }
                if has_str(w, t) {
                    let i = choose|i: int| 0 <= i < w.len() && w[i]@ == t;
                    assert(v[i]@ == t);
                }
            }
        }
        assert(!str_set(w).contains(v.last()@)) by {
            if has_str(w, v.last()@) {
                let i = choose|i: int| 0 <= i < w.len() && w[i]@ == v.last()@;
                assert(v[i]@ == v[v.len() - 1]@);
            }
        }
    }
}

} // verus!
