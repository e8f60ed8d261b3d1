//! `Vec<String>` used as an ordered set: insertion order is kept and a
//! string is never stored twice.

use vstd::prelude::*;
use crate::furigana::strs_views;
use crate::text::str_eq;

verus! {

/// Whether some element of `v` has exactly the characters `x`.
pub open spec fn contains_str(v: Seq<String>, x: Seq<char>) -> bool {
    exists|i: int| 0 <= i < v.len() && (#[trigger] v[i])@ == x
}

/// No two elements hold the same characters.
pub open spec fn distinct_strs(v: Seq<String>) -> bool {
    forall|i: int, j: int| 0 <= i < j < v.len() ==> (#[trigger] v[i])@ != (#[trigger] v[j])@
}

/// Whether `v` holds an element with the characters of `x`.
pub fn has_str(v: &Vec<String>, x: &str) -> (r: bool)
    ensures
        r == contains_str(v@, x@),
{
    let mut i: usize = 0;
    while i < v.len()
        invariant
            i <= v@.len(),
            forall|j: int| 0 <= j < i ==> (#[trigger] v@[j])@ != x@,
        decreases v@.len() - i,
    {
        if str_eq(v[i].as_str(), x) {
            return true;
        }
        i = i + 1;
    }
    false
}

/// Adds `x` unless an equal string is already present.
pub fn insert_unique(v: &mut Vec<String>, x: String)
    ensures
        contains_str(old(v)@, x@) ==> final(v)@ == old(v)@,
        !contains_str(old(v)@, x@) ==> final(v)@ == old(v)@.push(x),
        distinct_strs(old(v)@) ==> distinct_strs(final(v)@),
        strs_views(final(v)@).to_set() == strs_views(old(v)@).to_set().insert(x@),
        forall|y: Seq<char>|
            contains_str(final(v)@, y) <==> (contains_str(old(v)@, y) || y == x@),
{
    let ghost v0 = v@;
    let present = has_str(v, x.as_str());
    if !present {
        v.push(x);
    }
    proof {
        let xv = x@;
        if present {
            assert(strs_views(v@).to_set() =~= strs_views(v0).to_set().insert(xv)) by {
                let i = choose|i: int| 0 <= i < v0.len() && (#[trigger] v0[i])@ == xv;
                assert(strs_views(v0)[i] == xv);
                assert(strs_views(v0).to_set().contains(xv));
            };
        } else {
            assert(forall|j: int| 0 <= j < v0.len() ==> v@[j] == v0[j]);
            if distinct_strs(v0) {
                assert(distinct_strs(v@)) by {
                    assert(forall|j: int| 0 <= j < v0.len() ==> (#[trigger] v@[j])@ != xv);
                    assert(v@[v0.len() as int]@ == xv);
                };
            }
            assert(strs_views(v@).to_set() =~= strs_views(v0).to_set().insert(xv)) by {
                assert forall|y: Seq<char>| #[trigger] strs_views(v@).to_set().contains(y)
                    <==> strs_views(v0).to_set().contains(y) || y == xv by {
                    if strs_views(v@).to_set().contains(y) {
                        let i = choose|i: int|
                            0 <= i < strs_views(v@).len() && strs_views(v@)[i] == y;
                        if i < v0.len() {
                            assert(strs_views(v0)[i] == y);
                        }
                    }
                    if strs_views(v0).to_set().contains(y) {
                        let i = choose|i: int|
                            0 <= i < strs_views(v0).len() && strs_views(v0)[i] == y;
                        assert(strs_views(v@)[i] == y);
                    }
                    if y == xv {
                        assert(strs_views(v@)[v0.len() as int] == y);
                    }
                };
            };
        }
        assert forall|y: Seq<char>| contains_str(v@, y) <==> (contains_str(v0, y) || y == xv) by {
            if contains_str(v@, y) {
                let i = choose|i: int| 0 <= i < v@.len() && (#[trigger] v@[i])@ == y;
                if i < v0.len() {
                    assert(v0[i]@ == y);
                }
            }
            if contains_str(v0, y) {
                let i = choose|i: int| 0 <= i < v0.len() && (#[trigger] v0[i])@ == y;
                assert(v@[i]@ == y);
            }
            if y == xv && !present {
                assert(v@[v0.len() as int]@ == y);
            }
        };
    }
}

/// A string is an element exactly when the element set holds its characters.
pub proof fn lemma_contains_set(v: Seq<String>, y: Seq<char>)
    ensures
        contains_str(v, y) <==> strs_views(v).to_set().contains(y),
{
    if contains_str(v, y) {
        let i = choose|i: int| 0 <= i < v.len() && (#[trigger] v[i])@ == y;
        assert(strs_views(v)[i] == y);
    }
    if strs_views(v).to_set().contains(y) {
        let i = choose|i: int| 0 <= i < strs_views(v).len() && strs_views(v)[i] == y;
        assert(v[i]@ == y);
    }
}

/// Adds every string of `other` that is not yet present, in order.
pub fn extend_unique(v: &mut Vec<String>, other: &Vec<String>)
    ensures
        distinct_strs(old(v)@) ==> distinct_strs(final(v)@),
        strs_views(final(v)@).to_set() == strs_views(old(v)@).to_set() + strs_views(
            other@,
        ).to_set(),
        forall|y: Seq<char>|
            contains_str(final(v)@, y) <==> (contains_str(old(v)@, y) || contains_str(other@, y)),
{
    let ghost v0 = v@;
    let mut i: usize = 0;
    proof {
        assert(strs_views(v@).to_set() =~= strs_views(v0).to_set() + strs_views(
            other@.subrange(0, 0),
        ).to_set());
    }
    while i < other.len()
        invariant
            i <= other@.len(),
            distinct_strs(v0) ==> distinct_strs(v@),
            strs_views(v@).to_set() == strs_views(v0).to_set() + strs_views(
                other@.subrange(0, i as int),
            ).to_set(),
        decreases other@.len() - i,
    {
        let ghost vprev = v@;
        let s = other[i].clone();
        assert(s@ == other@[i as int]@);
        insert_unique(v, s);
        i = i + 1;
        proof {
            let pre = other@.subrange(0, i as int - 1);
            let cur = other@.subrange(0, i as int);
            assert(strs_views(cur).to_set() =~= strs_views(pre).to_set().insert(
                other@[i as int - 1]@,
            )) by {
                assert forall|y: Seq<char>| #[trigger] strs_views(cur).to_set().contains(y)
                    <==> (strs_views(pre).to_set().contains(y) || y == other@[i as int - 1]@) by {
                    if strs_views(cur).to_set().contains(y) {
                        let j = choose|j: int|
                            0 <= j < strs_views(cur).len() && strs_views(cur)[j] == y;
                        if j < pre.len() {
                            assert(strs_views(pre)[j] == y);
                        }
                    }
                    if strs_views(pre).to_set().contains(y) {
                        let j = choose|j: int|
                            0 <= j < strs_views(pre).len() && strs_views(pre)[j] == y;
                        assert(strs_views(cur)[j] == y);
                    }
                    if y == other@[i as int - 1]@ {
                        assert(strs_views(cur)[i as int - 1] == y);
                    }
                };
            };
            assert(strs_views(v@).to_set() =~= strs_views(v0).to_set() + strs_views(
                cur,
            ).to_set());
        }
    }
    proof {
        assert(other@.subrange(0, other@.len() as int) =~= other@);
        assert forall|y: Seq<char>|
            contains_str(v@, y) <==> (contains_str(v0, y) || contains_str(other@, y)) by {
            lemma_contains_set(v@, y);
            lemma_contains_set(v0, y);
            lemma_contains_set(other@, y);
        };
    }
}

} // verus!
