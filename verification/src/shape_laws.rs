//! What the shape algebra promises as a whole: broadcasting, transposes,
//! strides, and takes and drops of one axis.

use vstd::prelude::*;
use crate::ast::{
    broadcast_dims, broadcasts, cells, default_axis_of, fits, widest_before, geometry_of, lemma_stride_bounds, magnitude, is_permutation, lemma_permutation_inverse, max1, place_of, raw_cells,
    reversed_axes, stretch, stride, take_offset, taken_cell, taken_dims, transposed_dims,
};

verus! {

/// Broadcasting does not care which operand comes first.
pub proof fn law_broadcast_symmetric(a: Seq<usize>, b: Seq<usize>)
    ensures
        broadcasts(a, b) == broadcasts(b, a),
        broadcasts(a, b) ==> broadcast_dims(a, b) == broadcast_dims(b, a),
{
    assert forall|i: int| 0 <= i < a.len() && i < b.len() implies #[trigger] stretch(a[i], b[i]) == stretch(b[i], a[i]) by {}
    if broadcasts(a, b) {
        assert forall|i: int| 0 <= i < b.len() implies (#[trigger] stretch(b[i], a[i])) is Some by {
            assert(stretch(a[i], b[i]) is Some);
        }
    }
    if broadcasts(b, a) {
        assert forall|i: int| 0 <= i < a.len() implies (#[trigger] stretch(a[i], b[i])) is Some by {
            assert(stretch(b[i], a[i]) is Some);
        }
    }
    if broadcasts(a, b) {
        assert(broadcast_dims(a, b) =~= broadcast_dims(b, a));
    }
}

/// A shape broadcasts with itself, to itself.
pub proof fn law_broadcast_self(a: Seq<usize>)
    ensures
        broadcasts(a, a),
        broadcast_dims(a, a) == a,
{
    assert forall|i: int| 0 <= i < a.len() implies (#[trigger] stretch(a[i], a[i])) is Some by {}
    assert(broadcast_dims(a, a) =~= a);
}

/// Two shapes of extents at least one broadcast exactly when their ranks
/// match and every pair of extents is equal or has a one in it; the result
/// takes the larger extent on every axis.
pub proof fn law_broadcast_rule(a: Seq<usize>, b: Seq<usize>)
    requires
        forall|i: int| 0 <= i < a.len() ==> #[trigger] a[i] >= 1,
        forall|i: int| 0 <= i < b.len() ==> #[trigger] b[i] >= 1,
    ensures
        broadcasts(a, b) <==> (a.len() == b.len() && forall|i: int|
            0 <= i < a.len() ==> #[trigger] a[i] == b[i] || a[i] == 1 || b[i] == 1),
        broadcasts(a, b) ==> broadcast_dims(a, b).len() == a.len() && forall|i: int|
            0 <= i < a.len() ==> #[trigger] broadcast_dims(a, b)[i] == if a[i] >= b[i] {
                a[i]
            } else {
                b[i]
            },
{
    if broadcasts(a, b) {
        assert forall|i: int| 0 <= i < a.len() implies #[trigger] a[i] == b[i] || a[i] == 1 || b[i] == 1 by {
            assert(stretch(a[i], b[i]) is Some);
        }
    }
    if a.len() == b.len() && forall|i: int| 0 <= i < a.len() ==> #[trigger] a[i] == b[i] || a[i] == 1 || b[i] == 1 {
        assert forall|i: int| 0 <= i < a.len() implies (#[trigger] stretch(a[i], b[i])) is Some by {
            assert(a[i] == b[i] || a[i] == 1 || b[i] == 1);
        }
    }
}

/// The reversal of `n` axes is a permutation of them.
pub proof fn lemma_reversal_is_permutation(n: int)
    requires
        0 <= n <= usize::MAX,
    ensures
        is_permutation(reversed_axes(n), n),
        forall|i: int| 0 <= i < n ==> #[trigger] reversed_axes(n)[i] == n - 1 - i,
{
    let r = reversed_axes(n);
    assert forall|i: int| 0 <= i < n implies #[trigger] r[i] == n - 1 - i by {}
}

/// Transposing with the reversal twice gives back the shape: `⍉⍉` is the
/// identity on shapes.
pub proof fn law_reverse_transpose_twice(s: Seq<usize>)
    requires
        s.len() <= usize::MAX,
    ensures
        transposed_dims(transposed_dims(s, reversed_axes(s.len() as int)), reversed_axes(s.len() as int)) == s,
{
    let n = s.len() as int;
    let r = reversed_axes(n);
    lemma_reversal_is_permutation(n);
    lemma_permutation_inverse(r, n);
    assert forall|j: int| 0 <= j < n implies place_of(r, j) == n - 1 - j by {
        let k = place_of(r, j);
        assert(r[k] == j);
        assert(r[k] == n - 1 - k);
    }
    let t = transposed_dims(s, r);
    assert forall|j: int| 0 <= j < n implies #[trigger] t[j] == s[n - 1 - j] by {}
    assert(transposed_dims(t, r) =~= s);
}

/// Whether some place of `perm` holds axis `k`.
pub open spec fn names_axis(perm: Seq<usize>, k: int) -> bool {
    exists|i: int| 0 <= i < perm.len() && #[trigger] perm[i] == k
}

/// A permutation of `n` axes names every axis below `n` exactly once.
pub proof fn law_permutation_names_each_axis_once(perm: Seq<usize>, n: int)
    requires
        is_permutation(perm, n),
    ensures
        perm.len() == n,
        forall|k: int| 0 <= k < n ==> #[trigger] names_axis(perm, k),
        forall|i: int, j: int| 0 <= i < n && 0 <= j < n && #[trigger] perm[i] == #[trigger] perm[j] ==> i == j,
{
    lemma_permutation_inverse(perm, n);
    assert forall|k: int| 0 <= k < n implies #[trigger] names_axis(perm, k) by {
        let i = place_of(perm, k);
        assert(perm[i] == k);
    }
    assert forall|i: int, j: int| 0 <= i < n && 0 <= j < n && #[trigger] perm[i] == #[trigger] perm[j] implies i == j by {
        if i < j {
            assert(perm[i] != perm[j]);
        } else if j < i {
            assert(perm[j] != perm[i]);
        }
    }
}

/// Conversely, axes that name every axis below `n` exactly once, `n` of
/// them, are a permutation: what `transpose_axes` accepts is exactly that.
pub proof fn law_each_axis_once_is_permutation(perm: Seq<usize>, n: int)
    requires
        perm.len() == n,
        forall|k: int| 0 <= k < n ==> #[trigger] names_axis(perm, k),
        forall|i: int, j: int|
            0 <= i < n && 0 <= j < n && #[trigger] perm[i] == #[trigger] perm[j] && perm[i] < n ==> i == j,
    ensures
        is_permutation(perm, n),
{
    let dom = vstd::set_lib::set_int_range(0, n);
    let f = |k: int| place_of(perm, k);
    vstd::set_lib::lemma_int_range(0, n);
    assert forall|k: int| 0 <= k < n implies 0 <= #[trigger] place_of(perm, k) < n && perm[place_of(perm, k)] == k by {
        assert(names_axis(perm, k));
    }
    assert(vstd::relations::injective_on(f, dom)) by {
        assert forall|x: int, y: int| dom.contains(x) && dom.contains(y) && #[trigger] f(x) == #[trigger] f(y) implies x == y by {
            assert(perm[place_of(perm, x)] == x);
            assert(perm[place_of(perm, y)] == y);
        }
    }
    let img = dom.map(f);
    vstd::set_lib::lemma_map_size(dom, img, f);
    assert(img.subset_of(dom)) by {
        assert forall|i: int| img.contains(i) implies dom.contains(i) by {
            let k = choose|k: int| dom.contains(k) && f(k) == i;
        }
    }
    vstd::set_lib::lemma_subset_equality(img, dom);
    assert forall|i: int| 0 <= i < n implies (#[trigger] perm[i]) < n by {
        assert(dom.contains(i));
        assert(img.contains(i));
        let k = choose|k: int| dom.contains(k) && f(k) == i;
        assert(perm[place_of(perm, k)] == k);
    }
    assert forall|i: int, j: int| 0 <= i < j < n implies perm[i] != perm[j] by {
        if perm[i] == perm[j] {
            assert(perm[i] < n);
        }
    }
}

proof fn lemma_cells_raw(s: Seq<usize>)
    requires
        forall|i: int| 0 <= i < s.len() ==> #[trigger] s[i] >= 1,
    ensures
        cells(s) == raw_cells(s),
    decreases s.len(),
{
    if s.len() > 0 {
        let t = s.drop_first();
        assert forall|i: int| 0 <= i < t.len() implies #[trigger] t[i] >= 1 by {
            assert(t[i] == s[i + 1]);
        }
        lemma_cells_raw(t);
        assert(max1(s[0]) == s[0] as int);
    }
}

/// With every extent at least one, the stride of axis `k` is the product of
/// the extents after it, so the last axis has stride one.
pub proof fn law_stride_is_product(s: Seq<usize>, k: int)
    requires
        0 <= k < s.len(),
        forall|i: int| 0 <= i < s.len() ==> #[trigger] s[i] >= 1,
    ensures
        stride(s, k) == raw_cells(s.skip(k + 1)),
        k == s.len() - 1 ==> stride(s, k) == 1,
{
    let t = s.skip(k + 1);
    assert forall|i: int| 0 <= i < t.len() implies #[trigger] t[i] >= 1 by {
        assert(t[i] == s[k + 1 + i]);
    }
    lemma_cells_raw(t);
    if k == s.len() - 1 {
        assert(t =~= Seq::<usize>::empty());
    }
}

/// Dropping the first `k` cells of an axis of `n` reads what taking the last
/// `n - k` reads, and dropping the last `k` what taking the first `n - k`
/// reads.
pub proof fn law_drop_is_take_of_the_rest(s: Seq<usize>, axis: usize, k: i64, flat: int)
    requires
        axis < s.len(),
        s[axis as int] <= i64::MAX,
        0 < k < s[axis as int],
    ensures
        taken_cell(s, axis, k, true, flat) == taken_cell(s, axis, -((s[axis as int] as i64) - k) as i64, false, flat),
        taken_cell(s, axis, -k as i64, true, flat) == taken_cell(s, axis, ((s[axis as int] as i64) - k) as i64, false, flat),
{
    let n = s[axis as int] as i64;
    let rest = (n - k) as i64;
    assert(taken_dims(s, Some(axis), k, true) == taken_dims(s, Some(axis), -rest as i64, false));
    assert(take_offset(n as int, k, true) == take_offset(n as int, -rest as i64, false));
    assert(taken_dims(s, Some(axis), -k as i64, true) == taken_dims(s, Some(axis), rest, false));
    assert(take_offset(n as int, -k as i64, true) == take_offset(n as int, rest, false));
}


/// A take or drop along an axis in range that leaves something keeps every
/// other extent and gives that axis what is left: `|count|` for a take,
/// the extent less `|count|` for a drop.
pub proof fn law_taken_dims(s: Seq<usize>, a: usize, count: i64, dropping: bool)
    requires
        a < s.len(),
    ensures
        ({
            let kept = if dropping {
                (s[a as int] as i64) as int - magnitude(count)
            } else {
                magnitude(count)
            };
            &&& taken_dims(s, Some(a), count, dropping) is None <==> kept <= 0
            &&& taken_dims(s, Some(a), count, dropping) matches Some(t) ==> t.len() == s.len() && t[a as int] == kept as usize
                && forall|b: int| 0 <= b < s.len() && b != a ==> #[trigger] t[b] == s[b]
        }),
{
}

/// The geometry of an axis in range of a shape of extents at least one is
/// its row-major stride and its extent; an empty shape or an axis past the
/// end has none.
pub proof fn law_axis_geometry(s: Seq<usize>, axis: Option<usize>)
    requires
        forall|i: int| 0 <= i < s.len() ==> #[trigger] s[i] >= 1,
        fits(s),
    ensures
        geometry_of(s, axis) is None <==> (s.len() == 0 || (axis matches Some(a) && a >= s.len())),
        geometry_of(s, axis) matches Some((st, x)) ==> ({
            let a = match axis {
                Some(a) => a as int,
                None => default_axis_of(s),
            };
            st == stride(s, a) && x == s[a]
        }),
{
    if s.len() > 0 {
        let a = match axis {
            Some(a) => a as int,
            None => default_axis_of(s),
        };
        lemma_default_axis_in_range(s);
        if 0 <= a < s.len() {
            law_stride_is_product(s, a);
            lemma_stride_bounds(s, a);
        }
    }
}


proof fn lemma_widest_in_range(s: Seq<usize>, n: int)
    ensures
        widest_before(s, n) matches Some(a) ==> 0 <= a < n,
    decreases n,
{
    if n > 0 {
        lemma_widest_in_range(s, n - 1);
    }
}

/// The default axis of a shape with axes is one of them.
proof fn lemma_default_axis_in_range(s: Seq<usize>)
    requires
        s.len() > 0,
    ensures
        0 <= default_axis_of(s) < s.len(),
{
    lemma_widest_in_range(s, s.len() as int);
}

} // verus!
