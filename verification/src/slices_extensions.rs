//! Binary-search insertion points over sorted slices, and in-place rotation
//! of a vector by an arbitrary number of steps.

use vstd::arithmetic::div_mod::{lemma_mod_multiples_vanish, lemma_small_mod};
use vstd::prelude::*;

verus! {

/// The sequence is sorted in non-decreasing order.
pub open spec fn is_sorted(s: Seq<i64>) -> bool {
    forall|a: int, b: int| #![trigger s[a], s[b]] 0 <= a < b < s.len() ==> s[a] <= s[b]
}

/// Rightmost insertion point of `value` in a sorted slice: the index of the
/// first element strictly greater than `value`, or the length if there is
/// none. Everything before the result is `<= value`; everything from it on is
/// `> value`.
pub fn bisect_right(x: &[i64], value: i64) -> (r: usize)
    requires
        is_sorted(x@),
    ensures
        r <= x@.len(),
        forall|k: int| 0 <= k < r ==> x@[k] <= value,
        forall|k: int| r <= k < x@.len() ==> value < x@[k],
{
    if x.len() == 0 || value < x[0] {
        return 0;
    }
    let mut l: usize = 0;
    let mut r: usize = x.len();
    while r - l > 1
        invariant
            is_sorted(x@),
            l < r <= x@.len(),
            x@[l as int] <= value,
            r == x@.len() || value < x@[r as int],
        decreases r - l,
    {
        let middle = l + (r - l) / 2;
        if value < x[middle] {
            r = middle;
        } else {
            l = middle;
        }
    }
    r
}

/// Leftmost insertion point of `value` in a sorted slice: the index of the
/// first element not strictly less than `value`, or the length if there is
/// none. Everything before the result is `< value`; everything from it on is
/// `>= value`.
pub fn bisect_left(x: &[i64], value: i64) -> (r: usize)
    requires
        is_sorted(x@),
    ensures
        r <= x@.len(),
        forall|k: int| 0 <= k < r ==> x@[k] < value,
        forall|k: int| r <= k < x@.len() ==> value <= x@[k],
{
    if x.len() == 0 || !(x[0] < value) {
        return 0;
    }
    let mut l: usize = 0;
    let mut r: usize = x.len();
    while r - l > 1
        invariant
            is_sorted(x@),
            l < r <= x@.len(),
            x@[l as int] < value,
            r == x@.len() || value <= x@[r as int],
        decreases r - l,
    {
        let middle = l + (r - l) / 2;
        if x[middle] < value {
            l = middle;
        } else {
            r = middle;
        }
    }
    r
}

/// Rotates the vector forward by `steps`: the element at index `i` moves to
/// index `(i + steps) % len`, equivalently the element at index `k` of the
/// result came from index `(k + len - steps % len) % len`.
pub fn rotate_forward(x: &mut Vec<i64>, steps: usize)
    requires
        old(x)@.len() > 0,
    ensures
        final (x)@.len() == old(x)@.len(),
        forall|k: int|
            0 <= k < old(x)@.len() ==> final (x)@[k] == old(x)@[(k + old(x)@.len() as int - steps
                as int % (old(x)@.len() as int)) % (old(x)@.len() as int)],
{
    let n = x.len();
    let mid = steps % n;
    rotate_to(x, n - mid);
    proof {
        let len = old(x)@.len() as int;
        assert forall|k: int| 0 <= k < len implies x@[k] == old(x)@[(k + len - steps as int % len)
            % len] by {
            lemma_rotated_index(k, len - steps as int % len, len);
        }
    }
}

/// Rotates the vector backward by `steps`: the element at index `i` moves to
/// index `(i - steps) mod len`, equivalently the element at index `k` of the
/// result came from index `(k + steps % len) % len`.
pub fn rotate_backward(x: &mut Vec<i64>, steps: usize)
    requires
        old(x)@.len() > 0,
    ensures
        final (x)@.len() == old(x)@.len(),
        forall|k: int|
            0 <= k < old(x)@.len() ==> final (x)@[k] == old(x)@[(k + steps as int % (old(
                x,
            )@.len() as int)) % (old(x)@.len() as int)],
{
    let n = x.len();
    let antimid = steps % n;
    rotate_to(x, antimid);
    proof {
        let len = old(x)@.len() as int;
        assert forall|k: int| 0 <= k < len implies x@[k] == old(x)@[(k + steps as int % len)
            % len] by {
            lemma_rotated_index(k, steps as int % len, len);
        }
    }
}

/// For an offset `c` in `[0, len]` and an index `k` in `[0, len)`, the
/// rotated source index `(k + c) % len` is `k + c` below the wrap point and
/// `k + c - len` at or above it.
proof fn lemma_rotated_index(k: int, c: int, len: int)
    requires
        0 <= k < len,
        0 <= c <= len,
    ensures
        k + c < len ==> (k + c) % len == k + c,
        k + c >= len ==> (k + c) % len == k + c - len,
{
    if k + c < len {
        lemma_small_mod((k + c) as nat, len as nat);
    } else {
        lemma_mod_multiples_vanish(1, k + c - len, len);
        lemma_small_mod((k + c - len) as nat, len as nat);
    }
}

/// Replaces the vector by `x[cut..] + x[..cut]`.
fn rotate_to(x: &mut Vec<i64>, cut: usize)
    requires
        cut <= old(x)@.len(),
    ensures
        final (x)@.len() == old(x)@.len(),
        final (x)@ == old(x)@.subrange(cut as int, old(x)@.len() as int) + old(x)@.subrange(
            0,
            cut as int,
        ),
{
    let n = x.len();
    let mut out: Vec<i64> = Vec::new();
    let mut k = cut;
    while k < n
        invariant
            cut <= k <= n,
            n == x@.len(),
            out@ == x@.subrange(cut as int, k as int),
        decreases n - k,
    {
        let e = x[k];
        out.push(e);
        proof {
            assert(out@ =~= x@.subrange(cut as int, k + 1 as int));
        }
        k = k + 1;
    }
    let mut k2: usize = 0;
    while k2 < cut
        invariant
            k2 <= cut <= n,
            n == x@.len(),
            out@ == x@.subrange(cut as int, n as int) + x@.subrange(0, k2 as int),
        decreases cut - k2,
    {
        let e = x[k2];
        out.push(e);
        proof {
            assert(out@ =~= x@.subrange(cut as int, n as int) + x@.subrange(0, k2 + 1 as int));
        }
        k2 = k2 + 1;
    }
    *x = out;
}

} // verus!
