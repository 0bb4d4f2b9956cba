//! A transpose reads every source cell exactly once: the map from a result
//! cell to the source cell it reads is a bijection of the flat indices.

use vstd::prelude::*;
use crate::ast::{
    cells, is_permutation, lemma_cells_pos, lemma_cells_skip, lemma_permutation_inverse, lemma_stride_bounds, max1, place_of, stride,
    transposed_dims, transposed_sum,
};

verus! {

/// The digit of flat index `x` on axis `k` of shape `s`.
pub open spec fn digit(s: Seq<usize>, x: int, k: int) -> int {
    (x / stride(s, k)) % max1(s[k])
}

/// Every digit of `x`, outermost axis first.
pub open spec fn digits(s: Seq<usize>, x: int) -> Seq<int> {
    Seq::new(s.len(), |k: int| digit(s, x, k))
}

/// One digit per axis, each below its axis's extent.
pub open spec fn in_radix(s: Seq<usize>, c: Seq<int>) -> bool {
    &&& c.len() == s.len()
    &&& forall|k: int| 0 <= k < s.len() ==> 0 <= #[trigger] c[k] < max1(s[k])
}

/// The flat index that the digits `c` spell, outermost axis first.
pub open spec fn spelled(s: Seq<usize>, c: Seq<int>) -> int
    decreases s.len(),
{
    if s.len() == 0 || c.len() == 0 {
        0
    } else {
        c[0] * cells(s.drop_first()) + spelled(s.drop_first(), c.drop_first())
    }
}

/// The cells of a shape are those of its outer axes times those of the rest.
proof fn lemma_cells_split(s: Seq<usize>, j: int)
    requires
        0 <= j <= s.len(),
    ensures
        cells(s) == cells(s.take(j)) * cells(s.skip(j)),
    decreases j,
{
    if j == 0 {
        assert(s.take(0) =~= Seq::<usize>::empty());
        assert(s.skip(0) =~= s);
    } else {
        let rest = s.drop_first();
        lemma_cells_split(rest, j - 1);
        assert(s.take(j).drop_first() =~= rest.take(j - 1));
        assert(s.take(j)[0] == s[0]);
        assert(rest.skip(j - 1) =~= s.skip(j));
        vstd::arithmetic::mul::lemma_mul_is_associative(
            max1(s[0]),
            cells(rest.take(j - 1)),
            cells(s.skip(j)),
        );
    }
}

/// An inner digit does not see the outermost axis.
proof fn lemma_digit_rest(s: Seq<usize>, x: int, k: int)
    requires
        1 <= k < s.len(),
        0 <= x,
    ensures
        digit(s, x, k) == digit(s.drop_first(), x % cells(s.drop_first()), k - 1),
{
    let rest = s.drop_first();
    let r = cells(rest);
    let st = stride(s, k);
    let m = max1(s[k]);
    assert(s.skip(k + 1) =~= rest.skip(k));
    assert(rest[k - 1] == s[k]);
    lemma_cells_split(rest, k - 1);
    lemma_cells_skip(rest, k - 1);
    let p = cells(rest.take(k - 1));
    lemma_cells_pos(rest);
    lemma_cells_pos(rest.skip(k));
    lemma_cells_pos(rest.take(k - 1));
    let q = x / r;
    let y = x % r;
    vstd::arithmetic::div_mod::lemma_fundamental_div_mod(x, r);
    assert(r == p * (m * st));
    assert(x == (q * p * m) * st + y) by (nonlinear_arith)
        requires
            x == r * q + y,
            r == p * (m * st),
    ;
    vstd::arithmetic::div_mod::lemma_hoist_over_denominator(y, q * p * m, st as nat);
    assert(x / st == y / st + q * p * m);
    assert(m * (q * p) == q * p * m) by (nonlinear_arith);
    vstd::arithmetic::div_mod::lemma_mod_multiples_vanish(q * p, y / st, m);
}

/// The outermost digit of a cell is its quotient by the inner cells.
proof fn lemma_digit_first(s: Seq<usize>, x: int)
    requires
        s.len() >= 1,
        0 <= x < cells(s),
    ensures
        digit(s, x, 0) == x / cells(s.drop_first()),
        0 <= x / cells(s.drop_first()) < max1(s[0]),
{
    let rest = s.drop_first();
    assert(s.skip(1) =~= rest);
    lemma_cells_pos(rest);
    let r = cells(rest);
    vstd::arithmetic::div_mod::lemma_div_pos_is_pos(x, r);
    vstd::arithmetic::div_mod::lemma_fundamental_div_mod(x, r);
    vstd::arithmetic::div_mod::lemma_mod_pos_bound(x, r);
    assert(x / r < max1(s[0])) by (nonlinear_arith)
        requires
            x == r * (x / r) + x % r,
            0 <= x % r,
            x < max1(s[0]) * r,
            r > 0,
    ;
    vstd::arithmetic::div_mod::lemma_small_mod((x / r) as nat, max1(s[0]) as nat);
}

/// The digits of a cell spell it again.
proof fn lemma_spelled_digits(s: Seq<usize>, x: int)
    requires
        0 <= x < cells(s),
    ensures
        in_radix(s, digits(s, x)),
        spelled(s, digits(s, x)) == x,
    decreases s.len(),
{
    if s.len() > 0 {
        let rest = s.drop_first();
        let r = cells(rest);
        lemma_cells_pos(rest);
        lemma_digit_first(s, x);
        let y = x % r;
        vstd::arithmetic::div_mod::lemma_mod_pos_bound(x, r);
        vstd::arithmetic::div_mod::lemma_fundamental_div_mod(x, r);
        lemma_spelled_digits(rest, y);
        assert forall|k: int| 1 <= k < s.len() implies digits(s, x)[k] == digits(rest, y)[k - 1] by {
            lemma_digit_rest(s, x, k);
        }
        assert(digits(s, x).drop_first() =~= digits(rest, y));
        assert forall|k: int| 0 <= k < s.len() implies 0 <= #[trigger] digits(s, x)[k] < max1(s[k]) by {
            if k >= 1 {
                assert(digits(s, x)[k] == digits(rest, y)[k - 1]);
                assert(rest[k - 1] == s[k]);
            }
        }
        assert(x == digits(s, x)[0] * r + y) by (nonlinear_arith)
            requires
                x == r * (x / r) + y,
                digits(s, x)[0] == x / r,
        ;
    }
}

/// Digits in range spell a cell of the shape.
proof fn lemma_spelled_range(s: Seq<usize>, c: Seq<int>)
    requires
        in_radix(s, c),
    ensures
        0 <= spelled(s, c) < cells(s),
    decreases s.len(),
{
    if s.len() > 0 {
        let rest = s.drop_first();
        let r = cells(rest);
        assert forall|k: int| 0 <= k < rest.len() implies 0 <= #[trigger] c.drop_first()[k] < max1(rest[k]) by {
            assert(c.drop_first()[k] == c[k + 1]);
        }
        lemma_spelled_range(rest, c.drop_first());
        let y = spelled(rest, c.drop_first());
        let c0 = c[0];
        let m = max1(s[0]);
        assert(0 <= c0 < m);
        assert(0 <= c0 * r + y < m * r) by (nonlinear_arith)
            requires
                0 <= c0 < m,
                0 <= y < r,
        ;
    }
}

/// Two digit strings in range that spell the same cell are the same.
proof fn lemma_spelled_unique(s: Seq<usize>, c: Seq<int>, d: Seq<int>)
    requires
        in_radix(s, c),
        in_radix(s, d),
        spelled(s, c) == spelled(s, d),
    ensures
        c == d,
    decreases s.len(),
{
    if s.len() == 0 {
        assert(c =~= d);
    } else {
        let rest = s.drop_first();
        let r = cells(rest);
        assert forall|k: int| 0 <= k < rest.len() implies 0 <= #[trigger] c.drop_first()[k] < max1(rest[k]) by {
            assert(c.drop_first()[k] == c[k + 1]);
        }
        assert forall|k: int| 0 <= k < rest.len() implies 0 <= #[trigger] d.drop_first()[k] < max1(rest[k]) by {
            assert(d.drop_first()[k] == d[k + 1]);
        }
        lemma_spelled_range(rest, c.drop_first());
        lemma_spelled_range(rest, d.drop_first());
        let x = spelled(s, c);
        vstd::arithmetic::div_mod::lemma_fundamental_div_mod_converse(
            x,
            r,
            c[0],
            spelled(rest, c.drop_first()),
        );
        vstd::arithmetic::div_mod::lemma_fundamental_div_mod_converse(
            x,
            r,
            d[0],
            spelled(rest, d.drop_first()),
        );
        lemma_spelled_unique(rest, c.drop_first(), d.drop_first());
        assert forall|k: int| 0 <= k < c.len() implies c[k] == d[k] by {
            if k >= 1 {
                assert(c[k] == c.drop_first()[k - 1]);
                assert(d[k] == d.drop_first()[k - 1]);
            }
        }
        assert(c =~= d);
    }
}

/// The digits of the cell that digits in range spell are those digits.
proof fn lemma_digits_of_spelled(s: Seq<usize>, c: Seq<int>)
    requires
        in_radix(s, c),
    ensures
        digits(s, spelled(s, c)) == c,
{
    let y = spelled(s, c);
    lemma_spelled_range(s, c);
    lemma_spelled_digits(s, y);
    lemma_spelled_unique(s, digits(s, y), c);
}

/// `c[k] * stride(s, k)` summed over the first `m` axes.
pub open spec fn weighted(s: Seq<usize>, c: Seq<int>, m: int) -> int
    decreases m,
{
    if m <= 0 {
        0
    } else {
        weighted(s, c, m - 1) + c[m - 1] * stride(s, m - 1)
    }
}

/// The digits, one per source axis, of the result cell `flat` that a
/// transpose by `perm` reads there.
pub open spec fn source_digits(s: Seq<usize>, perm: Seq<usize>, flat: int) -> Seq<int> {
    Seq::new(s.len(), |k: int| digit(transposed_dims(s, perm), flat, perm[k] as int))
}

/// Summing over axes from the outside in: the outermost term, then the rest.
proof fn lemma_weighted_peel(s: Seq<usize>, c: Seq<int>, m: int)
    requires
        1 <= m <= s.len(),
        c.len() == s.len(),
    ensures
        weighted(s, c, m) == c[0] * cells(s.drop_first()) + weighted(s.drop_first(), c.drop_first(), m - 1),
    decreases m,
{
    let rest = s.drop_first();
    if m == 1 {
        assert(s.skip(1) =~= rest);
        assert(stride(s, 0) == cells(rest));
        assert(weighted(rest, c.drop_first(), 0) == 0);
        assert(weighted(s, c, 0) == 0);
    } else {
        lemma_weighted_peel(s, c, m - 1);
        assert(s.skip(m) =~= rest.skip(m - 1));
        assert(stride(s, m - 1) == stride(rest, m - 2));
        assert(c.drop_first()[m - 2] == c[m - 1]);
    }
}

/// Spelling digits is summing each digit times its axis's stride.
proof fn lemma_spelled_weighted(s: Seq<usize>, c: Seq<int>)
    requires
        c.len() == s.len(),
    ensures
        spelled(s, c) == weighted(s, c, s.len() as int),
    decreases s.len(),
{
    if s.len() > 0 {
        lemma_spelled_weighted(s.drop_first(), c.drop_first());
        lemma_weighted_peel(s, c, s.len() as int);
    }
}

/// A digit lies below its axis's extent.
proof fn lemma_digit_range(s: Seq<usize>, x: int, k: int)
    requires
        0 <= k < s.len(),
        0 <= x,
    ensures
        0 <= digit(s, x, k) < max1(s[k]),
{
    lemma_stride_bounds(s, k);
    vstd::arithmetic::div_mod::lemma_div_pos_is_pos(x, stride(s, k));
    vstd::arithmetic::div_mod::lemma_mod_pos_bound(x / stride(s, k), max1(s[k]));
}

/// The source index of a transposed cell spells its source digits, which
/// lie in the source's radix.
proof fn lemma_source_spelled(s: Seq<usize>, perm: Seq<usize>, flat: int)
    requires
        is_permutation(perm, s.len() as int),
        0 <= flat,
    ensures
        in_radix(s, source_digits(s, perm, flat)),
        transposed_sum(s, perm, flat, s.len() as int) == spelled(s, source_digits(s, perm, flat)),
{
    let n = s.len() as int;
    let t = transposed_dims(s, perm);
    let c = source_digits(s, perm, flat);
    lemma_permutation_inverse(perm, n);
    assert forall|k: int| 0 <= k < n implies 0 <= #[trigger] c[k] < max1(s[k]) by {
        let a = perm[k] as int;
        lemma_digit_range(t, flat, a);
        assert(place_of(perm, a) == k);
    }
    lemma_sum_weighted(s, perm, flat, n);
    lemma_spelled_weighted(s, c);
}

/// The transposed sum over the first `m` axes, as source digits weighted.
proof fn lemma_sum_weighted(s: Seq<usize>, perm: Seq<usize>, flat: int, m: int)
    requires
        0 <= m <= s.len(),
    ensures
        transposed_sum(s, perm, flat, m) == weighted(s, source_digits(s, perm, flat), m),
    decreases m,
{
    if m > 0 {
        lemma_sum_weighted(s, perm, flat, m - 1);
    }
}

/// Whether some cell of the transposed shape reads source cell `r`.
pub open spec fn read_by_some_cell(s: Seq<usize>, perm: Seq<usize>, r: int) -> bool {
    exists|f: int| 0 <= f < cells(transposed_dims(s, perm)) && #[trigger] transposed_sum(s, perm, f, s.len() as int) == r
}

/// A transpose reads each source cell exactly once. Over the cells of the
/// transposed shape, the flat source index that a cell reads lies among the
/// source's cells, no two cells read the same one, and every source cell is
/// read by some cell; so the two shapes have as many cells.
pub proof fn law_transpose_reads_each_cell_once(s: Seq<usize>, perm: Seq<usize>)
    requires
        is_permutation(perm, s.len() as int),
    ensures
        forall|f: int|
            0 <= f < cells(transposed_dims(s, perm)) ==> 0 <= #[trigger] transposed_sum(s, perm, f, s.len() as int) < cells(s),
        forall|f: int, g: int|
            0 <= f < cells(transposed_dims(s, perm)) && 0 <= g < cells(transposed_dims(s, perm))
                && #[trigger] transposed_sum(s, perm, f, s.len() as int) == #[trigger] transposed_sum(s, perm, g, s.len() as int)
                ==> f == g,
        forall|r: int| 0 <= r < cells(s) ==> #[trigger] read_by_some_cell(s, perm, r),
        cells(transposed_dims(s, perm)) == cells(s),
{
    let n = s.len() as int;
    let t = transposed_dims(s, perm);
    lemma_permutation_inverse(perm, n);
    assert forall|f: int| 0 <= f < cells(t) implies 0 <= #[trigger] transposed_sum(s, perm, f, n) < cells(s) by {
        lemma_source_spelled(s, perm, f);
        lemma_spelled_range(s, source_digits(s, perm, f));
    }
    assert forall|f: int, g: int|
        0 <= f < cells(t) && 0 <= g < cells(t)
            && #[trigger] transposed_sum(s, perm, f, n) == #[trigger] transposed_sum(s, perm, g, n) implies f == g by {
        lemma_source_spelled(s, perm, f);
        lemma_source_spelled(s, perm, g);
        lemma_spelled_unique(s, source_digits(s, perm, f), source_digits(s, perm, g));
        assert forall|a: int| 0 <= a < n implies digits(t, f)[a] == digits(t, g)[a] by {
            let k = place_of(perm, a);
            assert(source_digits(s, perm, f)[k] == source_digits(s, perm, g)[k]);
        }
        assert(digits(t, f) =~= digits(t, g));
        lemma_spelled_digits(t, f);
        lemma_spelled_digits(t, g);
    }
    assert forall|r: int| 0 <= r < cells(s) implies #[trigger] read_by_some_cell(s, perm, r) by {
        let e = digits(s, r);
        lemma_spelled_digits(s, r);
        let e2 = Seq::new(n as nat, |a: int| e[place_of(perm, a)]);
        assert forall|a: int| 0 <= a < t.len() implies 0 <= #[trigger] e2[a] < max1(t[a]) by {
            let k = place_of(perm, a);
            assert(0 <= e[k] < max1(s[k]));
        }
        let f = spelled(t, e2);
        lemma_spelled_range(t, e2);
        lemma_digits_of_spelled(t, e2);
        lemma_source_spelled(s, perm, f);
        assert forall|k: int| 0 <= k < n implies source_digits(s, perm, f)[k] == e[k] by {
            let a = perm[k] as int;
            assert(digits(t, f)[a] == e2[a]);
        }
        assert(source_digits(s, perm, f) =~= e);
        assert(transposed_sum(s, perm, f, n) == r);
    }
    lemma_cells_pos(t);
    lemma_cells_pos(s);
    let from = vstd::set_lib::set_int_range(0, cells(t));
    let onto = vstd::set_lib::set_int_range(0, cells(s));
    let read = |f: int| transposed_sum(s, perm, f, n);
    vstd::set_lib::lemma_int_range(0, cells(t));
    vstd::set_lib::lemma_int_range(0, cells(s));
    assert(vstd::relations::injective_on(read, from)) by {
        assert forall|x: int, y: int| from.contains(x) && from.contains(y) && #[trigger] read(x) == #[trigger] read(y) implies x == y by {
            assert(transposed_sum(s, perm, x, n) == transposed_sum(s, perm, y, n));
        }
    }
    assert forall|r: int| onto.contains(r) implies from.map(read).contains(r) by {
        assert(read_by_some_cell(s, perm, r));
        let f = choose|f: int| 0 <= f < cells(t) && #[trigger] transposed_sum(s, perm, f, n) == r;
        assert(from.contains(f) && read(f) == r);
    }
    assert forall|r: int| from.map(read).contains(r) implies onto.contains(r) by {
        let f = choose|f: int| from.contains(f) && read(f) == r;
        assert(0 <= transposed_sum(s, perm, f, n) < cells(s));
    }
    assert(from.map(read) =~= onto);
    vstd::set_lib::lemma_map_size(from, onto, read);
}

} // verus!
