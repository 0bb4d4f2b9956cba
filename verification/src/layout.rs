//! Where cells lie: the index arithmetic the reference interpreter walks a
//! grid with.

use vstd::prelude::*;
use crate::ast::{axis_geometry, fits, geometry_of, shape_with_unit_axis, stride, strides_of};
use crate::error::HarmonyDisruption;

verus! {

/// A lowering error on `line`.
pub fn err(line: usize, detail: String) -> (r: HarmonyDisruption)
    ensures
        r == (HarmonyDisruption::LoweringErr { detail, line }),
{
    HarmonyDisruption::LoweringErr { detail, line }
}

/// The flat index, in the full shape, of the line that cell `surviving` of
/// a fold along `axis` summarises.
pub open spec fn line_start_spec(shape: Seq<usize>, axis: usize, surviving: usize) -> int {
    match geometry_of(shape, Some(axis)) {
        None => surviving as int,
        Some((st, extent)) => {
            let s = if st == 0 { 1int } else { st as int };
            ((surviving as int) / s) * (extent as int) * s + (surviving as int) % s
        },
    }
}

/// Flat index, in the full shape, of the line a surviving cell summarises.
pub fn line_start_of(shape: &[usize], axis: usize, surviving: usize) -> (r: usize)
    requires
        fits(shape@),
        line_start_spec(shape@, axis, surviving) <= usize::MAX,
    ensures
        r == line_start_spec(shape@, axis, surviving),
{
    match axis_geometry(shape, Some(axis)) {
        None => surviving,
        Some((st, extent)) => {
            let s = if st == 0 { 1 } else { st };
            let outer = surviving / s;
            let within = surviving % s;
            proof {
                let total = (outer as int) * (extent as int) * (s as int) + within;
                assert(total <= usize::MAX);
                assert((outer as int) * (extent as int) <= (outer as int) * (extent as int) * (s as int)) by (nonlinear_arith)
                    requires
                        outer >= 0,
                        extent >= 0,
                        s >= 1,
                ;
                assert(0 <= (outer as int) * (extent as int)) by (nonlinear_arith)
                    requires
                        outer >= 0,
                        extent >= 0,
                ;
                assert(0 <= (outer as int) * (extent as int) * (s as int)) by (nonlinear_arith)
                    requires
                        outer >= 0,
                        extent >= 0,
                        s >= 1,
                ;
            }
            outer * extent * s + within
        },
    }
}

/// The index where the line through `index` along `axis` starts.
pub open spec fn line_of_spec(shape: Seq<usize>, axis: usize, index: usize) -> int {
    match geometry_of(shape, Some(axis)) {
        None => index as int,
        Some((st, extent)) => (index as int) - (((index as int) / (st as int)) % (extent as int)) * (st as int),
    }
}

/// Index of the start of the line through `index` along `axis`.
pub fn flat_of_line(shape: &[usize], axis: usize, index: usize) -> (r: usize)
    requires
        fits(shape@),
        geometry_of(shape@, Some(axis)) matches Some((_, extent)) ==> extent > 0,
    ensures
        r == line_of_spec(shape@, axis, index),
{
    match axis_geometry(shape, Some(axis)) {
        None => index,
        Some((st, extent)) => {
            proof {
                let a = axis as int;
                crate::ast::lemma_raw_cells_bound(shape@.skip(a + 1));
                assert(shape@.skip(0) =~= shape@);
                crate::ast::lemma_cells_skip_mono(shape@, 0, a + 1);
                assert(st >= 1);
            }
            let q = index / st;
            let position = q % extent;
            proof {
                assert(position <= q) by (nonlinear_arith)
                    requires
                        position == q % extent,
                        extent > 0,
                        q >= 0,
                ;
                assert((position as int) * (st as int) <= (q as int) * (st as int)) by (nonlinear_arith)
                    requires
                        position <= q,
                        st >= 1,
                ;
                assert((q as int) * (st as int) <= index) by (nonlinear_arith)
                    requires
                        q == index / st,
                        st >= 1,
                ;
                assert(0 <= (position as int) * (st as int)) by (nonlinear_arith)
                    requires
                        st >= 1,
                ;
            }
            index - position * st
        },
    }
}

/// The shape with the unit axes of `lifts` inserted, the last first, until
/// one cannot be.
pub open spec fn lifted_spec(view: Seq<usize>, lifts: Seq<usize>) -> Seq<usize>
    decreases lifts.len(),
{
    if lifts.len() == 0 {
        view
    } else {
        let axis = lifts.last();
        if axis > view.len() {
            view
        } else {
            lifted_spec(view.insert(axis as int, 1usize), lifts.drop_last())
        }
    }
}

/// A shape with the enclosing lifts' unit axes inserted, outermost last.
pub fn lifted(shape: &[usize], lifts: &[usize]) -> (r: Vec<usize>)
    ensures
        r@ == lifted_spec(shape@, lifts@),
{
    let mut view: Vec<usize> = crate::ast::copy_dims(shape);
    let mut k = lifts.len();
    assert(lifts@.take(k as int) =~= lifts@);
    while k > 0
        invariant
            k <= lifts.len(),
            lifted_spec(shape@, lifts@) == lifted_spec(view@, lifts@.take(k as int)),
        decreases k,
    {
        let axis = lifts[k - 1];
        assert(lifts@.take(k as int).last() == axis);
        assert(lifts@.take(k as int).drop_last() =~= lifts@.take(k - 1));
        match shape_with_unit_axis(view.as_slice(), axis) {
            Some(next) => {
                view = next;
            },
            None => {
                return view;
            },
        }
        k = k - 1;
    }
    view
}

/// What cell `index` of `at` reads of `source` from axis `k` on: the
/// coordinate along every axis the source does not stretch.
pub open spec fn mapped_from(source: Seq<usize>, at: Seq<usize>, index: usize, k: int) -> int
    decreases source.len() - k,
{
    if k < 0 || k >= source.len() || k >= at.len() {
        0
    } else {
        let here = if source[k] > 1 {
            let a = if at[k] == 0 { 1int } else { at[k] as int };
            (((index as int) / stride(at, k)) % a) * stride(source, k)
        } else {
            0
        };
        here + mapped_from(source, at, index, k + 1)
    }
}

/// Cell `index` of `at` translated into a cell of `source`.
pub open spec fn map_index_spec(source: Seq<usize>, at: Seq<usize>, index: usize) -> int {
    if source == at || source.len() != at.len() {
        index as int
    } else {
        mapped_from(source, at, index, 0)
    }
}

proof fn lemma_mapped_nonneg(source: Seq<usize>, at: Seq<usize>, index: usize, k: int)
    requires
        forall|j: int| 0 <= j < source.len() ==> stride(source, j) >= 1,
        forall|j: int| 0 <= j < at.len() ==> stride(at, j) >= 1,
    ensures
        mapped_from(source, at, index, k) >= 0,
    decreases source.len() - k,
{
    if 0 <= k < source.len() && k < at.len() {
        lemma_mapped_nonneg(source, at, index, k + 1);
        if source[k] > 1 {
            let a = if at[k] == 0 { 1int } else { at[k] as int };
            let c = ((index as int) / stride(at, k)) % a;
            assert(c >= 0);
            assert(c * stride(source, k) >= 0) by (nonlinear_arith)
                requires
                    c >= 0,
                    stride(source, k) >= 1,
            ;
        }
    }
}

/// Translate a cell of `at_shape` into a cell of `source`, dropping the
/// coordinates of axes the source has stretched.
pub fn map_index(source: &[usize], at_shape: &[usize], index: usize) -> (r: usize)
    requires
        fits(source@),
        fits(at_shape@),
        0 <= map_index_spec(source@, at_shape@, index) <= usize::MAX,
        forall|k: int| 0 <= k <= source.len() ==> 0 <= #[trigger] mapped_from(source@, at_shape@, index, k) <= usize::MAX,
    ensures
        r == map_index_spec(source@, at_shape@, index),
{
    if crate::parser::dims_eq(source, at_shape) || source.len() != at_shape.len() {
        return index;
    }
    let src_strides = strides_of(source);
    let at_strides = strides_of(at_shape);
    proof {
        assert forall|j: int| 0 <= j < source.len() implies stride(source@, j) >= 1 by {
            crate::ast::lemma_stride_bounds(source@, j);
        }
        assert forall|j: int| 0 <= j < at_shape.len() implies stride(at_shape@, j) >= 1 by {
            crate::ast::lemma_stride_bounds(at_shape@, j);
        }
    }
    let n = at_shape.len();
    let mut total: usize = 0;
    let mut k = n;
    while k > 0
        invariant
            k <= n == source.len() == at_shape.len() == src_strides.len() == at_strides.len(),
            forall|j: int| 0 <= j < n ==> src_strides@[j] == stride(source@, j),
            forall|j: int| 0 <= j < n ==> at_strides@[j] == stride(at_shape@, j),
            forall|j: int| 0 <= j < source.len() ==> stride(source@, j) >= 1,
            forall|j: int| 0 <= j < at_shape.len() ==> stride(at_shape@, j) >= 1,
            forall|j: int| 0 <= j <= source.len() ==> 0 <= #[trigger] mapped_from(source@, at_shape@, index, j) <= usize::MAX,
            total == mapped_from(source@, at_shape@, index, k as int),
        decreases k,
    {
        let j = k - 1;
        if source[j] > 1 {
            let a = if at_shape[j] == 0 { 1 } else { at_shape[j] };
            let coord = (index / at_strides[j]) % a;
            proof {
                lemma_mapped_nonneg(source@, at_shape@, index, k as int);
                assert(mapped_from(source@, at_shape@, index, j as int) == (coord as int) * (src_strides@[j as int] as int) + total);
                assert(0 <= (coord as int) * (src_strides@[j as int] as int)) by (nonlinear_arith)
                    requires
                        coord >= 0,
                        src_strides[j as int] >= 1,
                ;
            }
            total = coord * src_strides[j] + total;
        }
        k = j;
    }
    total
}

} // verus!
