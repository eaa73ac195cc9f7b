//! In-place insertion sorts for points and angles under their exact angular
//! orders. Sorting an already-sorted vector is proved to leave it unchanged,
//! so repeated sorting is a no-op and equal elements keep their relative
//! order.

use crate::geometry::{
    angle_lt, lemma_angle_le_transitive, lemma_angle_lt_asymmetric, lemma_point_le_transitive,
    lemma_point_lt_asymmetric, point_lt, Angle, Point,
};
use vstd::prelude::*;
use vstd::seq_lib::to_multiset_update;

verus! {

/// Every point of the sequence is well-formed and none is the origin, which
/// the angular order treats as equal to everything.
pub open spec fn points_sortable(s: Seq<Point>) -> bool {
    forall|i: int|
        0 <= i < s.len() ==> (#[trigger] s[i]).wf() && !(s[i].x == 0 && s[i].y == 0)
}

/// No later point strictly precedes an earlier one.
pub open spec fn points_sorted(s: Seq<Point>) -> bool {
    forall|i: int, j: int| #![trigger s[i], s[j]]
        0 <= i < j < s.len() ==> !point_lt(s[j], s[i])
}

/// Every angle of the sequence is well-formed with a strictly positive norm
/// product, that is, built from two non-origin points.
pub open spec fn angles_sortable(s: Seq<Angle>) -> bool {
    forall|i: int|
        0 <= i < s.len() ==> (#[trigger] s[i]).wf() && s[i].norm_prod_sq > 0
}

/// No later angle strictly precedes an earlier one.
pub open spec fn angles_sorted(s: Seq<Angle>) -> bool {
    forall|i: int, j: int| #![trigger s[i], s[j]]
        0 <= i < j < s.len() ==> !angle_lt(s[j], s[i])
}

/// Sorts the points in place by the angular order (insertion sort). The
/// result is a sorted rearrangement of the input, and an input that is
/// already sorted comes back unchanged: sorting is idempotent and a stable
/// pass over equal elements.
pub fn sort_points(v: &mut Vec<Point>)
    requires
        points_sortable(old(v)@),
    ensures
        final(v)@.to_multiset() == old(v)@.to_multiset(),
        points_sorted(final(v)@),
        points_sorted(old(v)@) ==> final(v)@ == old(v)@,
{
    let ghost orig = v@;
    let n = v.len();
    if n < 2 {
        return ;
    }
    let mut i: usize = 1;
    while i < n
        invariant
            points_sortable(v@),
            v@.len() == n,
            orig.len() == n,
            2 <= n,
            v@.to_multiset() == orig.to_multiset(),
            1 <= i <= n,
            points_sorted(v@.subrange(0, i as int)),
            points_sorted(orig) ==> v@ == orig,
        decreases n - i,
    {
        proof {
            assert forall|a: int, b: int| #![trigger v@[a], v@[b]]
                0 <= a < b <= i && a != i && b != i implies !point_lt(v@[b], v@[a]) by {
                let t = v@.subrange(0, i as int);
                assert(t[a] == v@[a] && t[b] == v@[b]);
            }
        }
        let mut j: usize = i;
        loop
            invariant
                points_sortable(v@),
                v@.len() == n,
                orig.len() == n,
                v@.to_multiset() == orig.to_multiset(),
                0 <= j <= i < n,
                forall|a: int, b: int| #![trigger v@[a], v@[b]]
                    0 <= a < b <= i && a != j && b != j ==> !point_lt(v@[b], v@[a]),
                forall|b: int| j < b <= i ==> point_lt(v@[j as int], #[trigger] v@[b]),
                points_sorted(orig) ==> (v@ == orig && j == i),
            ensures
                points_sortable(v@),
                v@.len() == n,
                v@.to_multiset() == orig.to_multiset(),
                0 <= j <= i < n,
                forall|a: int, b: int| #![trigger v@[a], v@[b]]
                    0 <= a < b <= i && a != j && b != j ==> !point_lt(v@[b], v@[a]),
                forall|b: int| j < b <= i ==> point_lt(v@[j as int], #[trigger] v@[b]),
                points_sorted(orig) ==> (v@ == orig && j == i),
                j == 0 || !point_lt(v@[j as int], v@[j - 1]),
            decreases j,
        {
            if j == 0 {
                break ;
            }
            let a = v[j];
            let b = v[j - 1];
            if !a.lt(&b) {
                break ;
            }
            let ghost pre = v@;
            let moved = a;
            let other = b;
            v[j] = other;
            v[j - 1] = moved;
            proof {
                broadcast use vstd::multiset::group_multiset_axioms;

                pre.to_multiset_ensures();
                assert(pre.contains(pre[j as int]));
                assert(pre.contains(pre[j - 1]));
                let u1 = pre.update(j as int, pre[j - 1]);
                to_multiset_update(pre, j as int, pre[j - 1]);
                to_multiset_update(u1, j - 1 as int, pre[j as int]);
                assert(v@ == u1.update(j - 1 as int, pre[j as int]));
                assert(v@.to_multiset() =~= pre.to_multiset());
                assert(points_sorted(orig) ==> false) by {
                    if points_sorted(orig) {
                        assert(!point_lt(pre[j as int], pre[j - 1 as int]));
                    }
                }
            }
            j = j - 1;
        }
        proof {
            let s = v@;
            assert forall|a: int, b: int| #![trigger s[a], s[b]]
                0 <= a < b <= i implies !point_lt(s[b], s[a]) by {
                if a == j && b > j {
                    lemma_point_lt_asymmetric(s[a], s[b]);
                } else if b == j && a < j {
                    if j > 0 {
                        if a < j - 1 {
                            lemma_point_le_transitive(s[a], s[j - 1], s[j as int]);
                        }
                    }
                }
            }
            assert(points_sorted(v@.subrange(0, i + 1 as int))) by {
                let t = v@.subrange(0, i + 1 as int);
                assert forall|a: int, b: int| #![trigger t[a], t[b]]
                    0 <= a < b < t.len() implies !point_lt(t[b], t[a]) by {
                    assert(t[a] == v@[a] && t[b] == v@[b]);
                }
            }
        }
        i = i + 1;
    }
    proof {
        assert(v@ == v@.subrange(0, n as int));
    }
}

/// Sorts the angles in place by the exact angle order (insertion sort). The
/// result is a sorted rearrangement of the input, and an input that is
/// already sorted comes back unchanged: sorting is idempotent and a stable
/// pass over equal elements.
pub fn sort_angles(v: &mut Vec<Angle>)
    requires
        angles_sortable(old(v)@),
    ensures
        final(v)@.to_multiset() == old(v)@.to_multiset(),
        angles_sorted(final(v)@),
        angles_sorted(old(v)@) ==> final(v)@ == old(v)@,
{
    let ghost orig = v@;
    let n = v.len();
    if n < 2 {
        return ;
    }
    let mut i: usize = 1;
    while i < n
        invariant
            angles_sortable(v@),
            v@.len() == n,
            orig.len() == n,
            2 <= n,
            v@.to_multiset() == orig.to_multiset(),
            1 <= i <= n,
            angles_sorted(v@.subrange(0, i as int)),
            angles_sorted(orig) ==> v@ == orig,
        decreases n - i,
    {
        proof {
            assert forall|a: int, b: int| #![trigger v@[a], v@[b]]
                0 <= a < b <= i && a != i && b != i implies !angle_lt(v@[b], v@[a]) by {
                let t = v@.subrange(0, i as int);
                assert(t[a] == v@[a] && t[b] == v@[b]);
            }
        }
        let mut j: usize = i;
        loop
            invariant
                angles_sortable(v@),
                v@.len() == n,
                orig.len() == n,
                v@.to_multiset() == orig.to_multiset(),
                0 <= j <= i < n,
                forall|a: int, b: int| #![trigger v@[a], v@[b]]
                    0 <= a < b <= i && a != j && b != j ==> !angle_lt(v@[b], v@[a]),
                forall|b: int| j < b <= i ==> angle_lt(v@[j as int], #[trigger] v@[b]),
                angles_sorted(orig) ==> (v@ == orig && j == i),
            ensures
                angles_sortable(v@),
                v@.len() == n,
                v@.to_multiset() == orig.to_multiset(),
                0 <= j <= i < n,
                forall|a: int, b: int| #![trigger v@[a], v@[b]]
                    0 <= a < b <= i && a != j && b != j ==> !angle_lt(v@[b], v@[a]),
                forall|b: int| j < b <= i ==> angle_lt(v@[j as int], #[trigger] v@[b]),
                angles_sorted(orig) ==> (v@ == orig && j == i),
                j == 0 || !angle_lt(v@[j as int], v@[j - 1]),
            decreases j,
        {
            if j == 0 {
                break ;
            }
            let a = v[j];
            let b = v[j - 1];
            if !a.lt(&b) {
                break ;
            }
            let ghost pre = v@;
            let moved = a;
            let other = b;
            v[j] = other;
            v[j - 1] = moved;
            proof {
                broadcast use vstd::multiset::group_multiset_axioms;

                pre.to_multiset_ensures();
                assert(pre.contains(pre[j as int]));
                assert(pre.contains(pre[j - 1]));
                let u1 = pre.update(j as int, pre[j - 1]);
                to_multiset_update(pre, j as int, pre[j - 1]);
                to_multiset_update(u1, j - 1 as int, pre[j as int]);
                assert(v@ == u1.update(j - 1 as int, pre[j as int]));
                assert(v@.to_multiset() =~= pre.to_multiset());
                assert(angles_sorted(orig) ==> false) by {
                    if angles_sorted(orig) {
                        assert(!angle_lt(pre[j as int], pre[j - 1 as int]));
                    }
                }
            }
            j = j - 1;
        }
        proof {
            let s = v@;
            assert forall|a: int, b: int| #![trigger s[a], s[b]]
                0 <= a < b <= i implies !angle_lt(s[b], s[a]) by {
                if a == j && b > j {
                    lemma_angle_lt_asymmetric(s[a], s[b]);
                } else if b == j && a < j {
                    if j > 0 {
                        if a < j - 1 {
                            lemma_angle_le_transitive(s[a], s[j - 1], s[j as int]);
                        }
                    }
                }
            }
            assert(angles_sorted(v@.subrange(0, i + 1 as int))) by {
                let t = v@.subrange(0, i + 1 as int);
                assert forall|a: int, b: int| #![trigger t[a], t[b]]
                    0 <= a < b < t.len() implies !angle_lt(t[b], t[a]) by {
                    assert(t[a] == v@[a] && t[b] == v@[b]);
                }
            }
        }
        i = i + 1;
    }
    proof {
        assert(v@ == v@.subrange(0, n as int));
    }
}

} // verus!
