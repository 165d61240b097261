//! Sets of texts (session ids, connection ids) kept in a vector.

use vstd::prelude::*;
use crate::text::{chars_of, str_eq};
use crate::swarm::{lemma_text_lt_total, lemma_text_lt_transitive, text_less, text_lt};

verus! {

/// The texts held by `v`, as a set.
pub open spec fn text_set(v: Seq<String>) -> Set<Seq<char>> {
    Set::new(|x: Seq<char>| exists|i: int| 0 <= i < v.len() && #[trigger] v[i]@ == x)
}

/// Whether `x` is in the set.
pub fn text_set_contains(v: &[String], x: &str) -> (b: bool)
    ensures
        b == text_set(v@).contains(x@),
{
    let mut i: usize = 0;
    while i < v.len()
        invariant
            i <= v@.len(),
            forall|k: int| 0 <= k < i ==> v@[k]@ != x@,
        decreases v@.len() - i,
    {
        if str_eq(v[i].as_str(), x) {
            assert(v@[i as int]@ == x@);
            return true;
        }
        i += 1;
    }
    false
}

/// Adds `x` to the set.
pub fn text_set_insert(v: &mut Vec<String>, x: &str)
    ensures
        text_set(final(v)@) == text_set(old(v)@).insert(x@),
{
    if !text_set_contains(v.as_slice(), x) {
        let ghost v0 = v@;
        v.push(x.to_owned());
        proof {
            let v1 = v@;
            assert forall|y: Seq<char>| text_set(v1).contains(y) == text_set(v0).insert(x@).contains(
                y,
            ) by {
                if text_set(v0).contains(y) {
                    let i = choose|i: int| 0 <= i < v0.len() && #[trigger] v0[i]@ == y;
                    assert(v1[i]@ == y);
                }
                if y == x@ {
                    assert(v1[v0.len() as int]@ == y);
                }
                if text_set(v1).contains(y) && y != x@ {
                    let i = choose|i: int| 0 <= i < v1.len() && #[trigger] v1[i]@ == y;
                    assert(v0[i]@ == y);
                }
            }
            assert(text_set(v1) =~= text_set(v0).insert(x@));
        }
    } else {
        assert(text_set(v@) =~= text_set(v@).insert(x@));
    }
}

/// Removes `x` from the set.
pub fn text_set_remove(v: &mut Vec<String>, x: &str)
    ensures
        text_set(final(v)@) == text_set(old(v)@).remove(x@),
{
    let ghost v0 = v@;
    let mut kept: Vec<String> = Vec::new();
    let mut i: usize = 0;
    while i < v.len()
        invariant
            i <= v@.len(),
            v@ == v0,
            forall|y: Seq<char>|
                text_set(kept@).contains(y) <==> (y != x@ && exists|k: int|
                    0 <= k < i && #[trigger] v0[k]@ == y),
        decreases v@.len() - i,
    {
        let ghost k0 = kept@;
        if !str_eq(v[i].as_str(), x) {
            kept.push(v[i].clone());
            proof {
                assert forall|y: Seq<char>| text_set(kept@).contains(y) <==> (y != x@ && exists|k: int|
                    0 <= k < i + 1 && #[trigger] v0[k]@ == y) by {
                    if text_set(kept@).contains(y) {
                        let j = choose|j: int| 0 <= j < kept@.len() && #[trigger] kept@[j]@ == y;
                        if j < k0.len() {
                            assert(k0[j]@ == y);
                            assert(text_set(k0).contains(y));
                        } else {
                            assert(v0[i as int]@ == y);
                        }
                    }
                    if y != x@ && exists|k: int| 0 <= k < i + 1 && #[trigger] v0[k]@ == y {
                        let k = choose|k: int| 0 <= k < i + 1 && #[trigger] v0[k]@ == y;
                        if k < i {
                            assert(text_set(k0).contains(y));
                            let j = choose|j: int| 0 <= j < k0.len() && #[trigger] k0[j]@ == y;
                            assert(kept@[j]@ == y);
                        } else {
                            assert(kept@[k0.len() as int]@ == y);
                        }
                    }
                }
            }
        } else {
            proof {
                assert forall|y: Seq<char>| text_set(kept@).contains(y) <==> (y != x@ && exists|k: int|
                    0 <= k < i + 1 && #[trigger] v0[k]@ == y) by {
                    if y != x@ && exists|k: int| 0 <= k < i + 1 && #[trigger] v0[k]@ == y {
                        let k = choose|k: int| 0 <= k < i + 1 && #[trigger] v0[k]@ == y;
                        assert(k < i);
                    }
                }
            }
        }
        i += 1;
    }
    *v = kept;
    assert(text_set(v@) =~= text_set(v0).remove(x@));
}

/// Removes every text of `closed` from the set.
pub fn text_set_remove_all(v: &mut Vec<String>, closed: &[String])
    ensures
        text_set(final(v)@) == text_set(old(v)@).difference(text_set(closed@)),
{
    let ghost c0 = text_set(v@);
    let mut j: usize = 0;
    assert(text_set(closed@.take(0)) =~= Set::<Seq<char>>::empty());
    assert(c0.difference(Set::<Seq<char>>::empty()) =~= c0);
    while j < closed.len()
        invariant
            j <= closed@.len(),
            text_set(v@) == c0.difference(text_set(closed@.take(j as int))),
        decreases closed@.len() - j,
    {
        text_set_remove(v, closed[j].as_str());
        proof {
            let t = closed@.take(j + 1);
            let t0 = closed@.take(j as int);
            assert forall|x: Seq<char>| text_set(t).contains(x) <==> (text_set(t0).contains(x) || x
                == closed@[j as int]@) by {
                if text_set(t).contains(x) {
                    let a = choose|a: int| 0 <= a < t.len() && #[trigger] t[a]@ == x;
                    if a < j {
                        assert(t0[a]@ == x);
                    }
                }
                if text_set(t0).contains(x) {
                    let a = choose|a: int| 0 <= a < t0.len() && #[trigger] t0[a]@ == x;
                    assert(t[a]@ == x);
                }
                if x == closed@[j as int]@ {
                    assert(t[j as int]@ == x);
                }
            }
            assert(text_set(v@) =~= c0.difference(text_set(t)));
        }
        j += 1;
    }
    assert(closed@.take(closed@.len() as int) == closed@);
}

/// Whether the set is empty.
pub fn text_set_is_empty(v: &[String]) -> (b: bool)
    ensures
        b == (text_set(v@) == Set::<Seq<char>>::empty()),
{
    if v.len() == 0 {
        assert(text_set(v@) =~= Set::<Seq<char>>::empty());
        true
    } else {
        assert(text_set(v@).contains(v@[0]@));
        false
    }
}

/// A copy of the set's vector.
pub fn text_set_copy(v: &[String]) -> (r: Vec<String>)
    ensures
        r@ == v@,
{
    let mut r: Vec<String> = Vec::new();
    let mut i: usize = 0;
    while i < v.len()
        invariant
            i <= v@.len(),
            r@ == v@.take(i as int),
        decreases v@.len() - i,
    {
        r.push(v[i].clone());
        assert(v@.take(i + 1) == v@.take(i as int).push(v@[i as int]));
        i += 1;
    }
    assert(v@.take(v@.len() as int) == v@);
    r
}

/// `m` is the least text of `s` (by code point order).
pub open spec fn is_least(s: Set<Seq<char>>, m: Seq<char>) -> bool {
    &&& s.contains(m)
    &&& forall|y: Seq<char>| #[trigger] s.contains(y) && y != m ==> text_lt(m, y)
}

/// The least text of the set, if it is not empty.
pub fn text_set_min(v: &[String]) -> (r: Option<String>)
    ensures
        match r {
            Some(m) => is_least(text_set(v@), m@),
            None => text_set(v@) == Set::<Seq<char>>::empty(),
        },
{
    if v.len() == 0 {
        assert(text_set(v@) =~= Set::<Seq<char>>::empty());
        return None;
    }
    let mut best: usize = 0;
    let mut i: usize = 1;
    while i < v.len()
        invariant
            1 <= i <= v@.len(),
            best < i,
            forall|k: int| 0 <= k < i && v@[k]@ != v@[best as int]@ ==> text_lt(
                v@[best as int]@,
                #[trigger] v@[k]@,
            ),
        decreases v@.len() - i,
    {
        if text_less(&chars_of(v[i].as_str()), &chars_of(v[best].as_str())) {
            proof {
                let b = v@[best as int]@;
                let c = v@[i as int]@;
                assert forall|k: int| 0 <= k < i + 1 && v@[k]@ != c implies text_lt(
                    c,
                    #[trigger] v@[k]@,
                ) by {
                    if k < i {
                        if v@[k]@ != b {
                            lemma_text_lt_transitive(c, b, v@[k]@);
                        }
                    }
                }
            }
            best = i;
        } else {
            proof {
                lemma_text_lt_total(v@[i as int]@, v@[best as int]@);
            }
        }
        i += 1;
    }
    let m = v[best].clone();
    proof {
        assert(text_set(v@).contains(m@)) by {
            assert(v@[best as int]@ == m@);
        }
        assert forall|y: Seq<char>| #[trigger] text_set(v@).contains(y) && y != m@ implies text_lt(
            m@,
            y,
        ) by {
            let k = choose|k: int| 0 <= k < v@.len() && #[trigger] v@[k]@ == y;
            assert(v@[k]@ == y);
        }
    }
    Some(m)
}

} // verus!
