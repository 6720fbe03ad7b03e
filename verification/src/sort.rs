//! Re-sorting of the catalog's secondary index: pairs of (sort key,
//! identity), ordered by key in either direction.  The sort is proved to
//! produce an ordered permutation of its input.

use vstd::prelude::*;
use vstd::seq_lib::group_to_multiset_ensures;

verus! {

/// The comparison a direction stands for: ascending or descending by the
/// pair's sort key.
pub open spec fn key_le(inc: bool, a: (u64, u64), b: (u64, u64)) -> bool {
    if inc {
        a.0 <= b.0
    } else {
        a.0 >= b.0
    }
}

/// The sequence is ordered for the given direction.
pub open spec fn sorted_pairs(inc: bool, s: Seq<(u64, u64)>) -> bool {
    forall|i: int, j: int| 0 <= i < j < s.len() ==> key_le(inc, s[i], s[j])
}

/// Index of an extremal element: one that the direction places before
/// every element of the vector.
fn extremal_index(v: &Vec<(u64, u64)>, inc: bool) -> (m: usize)
    requires
        v.len() > 0,
    ensures
        m < v.len(),
        forall|j: int| 0 <= j < v.len() ==> key_le(inc, v@[m as int], v@[j]),
{
    let mut m: usize = 0;
    let mut t: usize = 1;
    while t < v.len()
        invariant
            m < v.len(),
            1 <= t <= v.len(),
            forall|j: int| 0 <= j < t ==> key_le(inc, v@[m as int], v@[j]),
        decreases v.len() - t,
    {
        let better = if inc {
            v[t].0 < v[m].0
        } else {
            v[t].0 > v[m].0
        };
        if better {
            m = t;
        }
        t = t + 1;
    }
    m
}

/// Sorts the pairs by key in the given direction, in place.  The result
/// is ordered and holds exactly the pairs that went in.
pub fn sort_pairs(v: &mut Vec<(u64, u64)>, inc: bool)
    ensures
        sorted_pairs(inc, final(v)@),
        final(v)@.to_multiset() == old(v)@.to_multiset(),
        final(v)@.len() == old(v)@.len(),
{
    broadcast use group_to_multiset_ensures;

    let mut out: Vec<(u64, u64)> = Vec::new();
    proof {
        assert(out@.to_multiset().add(v@.to_multiset()) =~= old(v)@.to_multiset());
    }
    loop
        invariant
            out@.to_multiset().add(v@.to_multiset()) == old(v)@.to_multiset(),
            out@.len() + v@.len() == old(v)@.len(),
            sorted_pairs(inc, out@),
            forall|i: int, j: int|
                0 <= i < out@.len() && 0 <= j < v@.len() ==> key_le(inc, out@[i], v@[j]),
        decreases v.len(),
    {
        broadcast use group_to_multiset_ensures;

        if v.len() == 0 {
            proof {
                assert(v@.to_multiset().len() == 0);
                assert forall|x: (u64, u64)|
                    out@.to_multiset().add(v@.to_multiset()).count(x) == #[trigger] out@
                        .to_multiset()
                        .count(x) by {
                    assert(v@.to_multiset().count(x) == 0);
                }
                assert(out@.to_multiset() =~= old(v)@.to_multiset());
            }
            *v = out;
            return ;
        }
        let m = extremal_index(v, inc);
        let ghost pre_src = v@;
        let ghost pre_out = out@;
        let x = v.remove(m);
        out.push(x);
        proof {
            assert(x == pre_src[m as int]);
            assert(v@ == pre_src.remove(m as int));
            assert(out@ == pre_out.push(x));
            assert(out@.to_multiset() =~= pre_out.to_multiset().insert(x));
            assert(v@.to_multiset() =~= pre_src.to_multiset().remove(x));
            assert(pre_src.to_multiset().count(x) > 0) by {
                assert(pre_src.contains(x));
            }
            assert forall|y: (u64, u64)|
                out@.to_multiset().add(v@.to_multiset()).count(y) == #[trigger] old(
                    v,
                )@.to_multiset().count(y) by {
                assert(pre_out.to_multiset().add(pre_src.to_multiset()) == old(v)@.to_multiset());
                assert(pre_out.to_multiset().add(pre_src.to_multiset()).count(y) == pre_out
                    .to_multiset()
                    .count(y) + pre_src.to_multiset().count(y));
            }
            assert(out@.to_multiset().add(v@.to_multiset()) =~= old(v)@.to_multiset());
            assert forall|i: int, j: int|
                0 <= i < out@.len() && 0 <= j < v@.len() implies key_le(inc, out@[i], v@[j]) by {
                assert(v@[j] == if j < m as int {
                    pre_src[j]
                } else {
                    pre_src[j + 1]
                });
                if i < pre_out.len() {
                    assert(out@[i] == pre_out[i]);
                } else {
                    assert(out@[i] == x);
                }
            }
            assert forall|i: int, j: int|
                0 <= i < j < out@.len() implies key_le(inc, out@[i], out@[j]) by {
                if j < pre_out.len() {
                } else {
                    assert(out@[j] == x);
                    assert(key_le(inc, pre_out[i], pre_src[m as int]));
                }
            }
        }
    }
}

} // verus!
