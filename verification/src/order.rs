//! Names in the order a sorted map walks them: by character, shorter
//! first when one is a prefix of the other.

use vstd::prelude::*;
use crate::sv::{names_of, with_name};
use crate::text::{lemma_name_order, name_before};

verus! {

/// Each name comes strictly before every later one.
pub open spec fn strictly_sorted(s: Seq<Seq<char>>) -> bool {
    forall|i: int, j: int| 0 <= i < j < s.len() ==> name_before(#[trigger] s[i], #[trigger] s[j])
}

/// Every name of `keys`, each once, in order.
pub open spec fn in_order(keys: Set<Seq<char>>) -> Seq<Seq<char>> {
    choose|s: Seq<Seq<char>>| strictly_sorted(s) && forall|k: Seq<char>| #[trigger] s.contains(k) <==> keys.contains(k)
}

/// Adding a name keeps a list strictly sorted and adds exactly that name.
pub proof fn lemma_with_name(names: Seq<Seq<char>>, x: Seq<char>)
    requires
        strictly_sorted(names),
    ensures
        strictly_sorted(with_name(names, x)),
        forall|y: Seq<char>| #[trigger] with_name(names, x).contains(y) <==> (names.contains(y) || y == x),
    decreases names.len(),
{
    lemma_name_order();
    let r = with_name(names, x);
    if names.len() == 0 {
        assert(r =~= seq![x]);
        assert forall|y: Seq<char>| #[trigger] r.contains(y) <==> (names.contains(y) || y == x) by {
            if r.contains(y) {
                let i = choose|i: int| 0 <= i < r.len() && r[i] == y;
            }
            if y == x {
                assert(r[0] == x);
            }
        }
    } else if names[0] == x {
        assert forall|y: Seq<char>| #[trigger] r.contains(y) <==> (names.contains(y) || y == x) by {
            if y == x {
                assert(names[0] == x);
            }
        }
    } else if name_before(x, names[0]) {
        assert(r =~= seq![x] + names);
        assert forall|i: int, j: int| 0 <= i < j < r.len() implies name_before(#[trigger] r[i], #[trigger] r[j]) by {
            if i == 0 {
                assert(r[j] == names[j - 1]);
                if j - 1 > 0 {
                    assert(name_before(names[0], names[j - 1]));
                }
            } else {
                assert(r[i] == names[i - 1] && r[j] == names[j - 1]);
            }
        }
        assert forall|y: Seq<char>| #[trigger] r.contains(y) <==> (names.contains(y) || y == x) by {
            if r.contains(y) {
                let i = choose|i: int| 0 <= i < r.len() && r[i] == y;
                if i > 0 {
                    assert(names[i - 1] == y);
                }
            }
            if names.contains(y) {
                let i = choose|i: int| 0 <= i < names.len() && names[i] == y;
                assert(r[i + 1] == y);
            }
            if y == x {
                assert(r[0] == x);
            }
        }
    } else {
        let rest = names.drop_first();
        assert forall|i: int, j: int| 0 <= i < j < rest.len() implies name_before(#[trigger] rest[i], #[trigger] rest[j]) by {
            assert(rest[i] == names[i + 1] && rest[j] == names[j + 1]);
        }
        lemma_with_name(rest, x);
        let w = with_name(rest, x);
        assert(r =~= seq![names[0]] + w);
        assert(name_before(names[0], x));
        assert forall|i: int, j: int| 0 <= i < j < r.len() implies name_before(#[trigger] r[i], #[trigger] r[j]) by {
            if i == 0 {
                assert(r[j] == w[j - 1]);
                assert(w.contains(w[j - 1]));
                if w[j - 1] != x {
                    assert(rest.contains(w[j - 1]));
                    let k = choose|k: int| 0 <= k < rest.len() && rest[k] == w[j - 1];
                    assert(names[k + 1] == rest[k]);
                    assert(name_before(names[0], names[k + 1]));
                }
            } else {
                assert(r[i] == w[i - 1] && r[j] == w[j - 1]);
            }
        }
        assert forall|y: Seq<char>| #[trigger] r.contains(y) <==> (names.contains(y) || y == x) by {
            if r.contains(y) {
                let i = choose|i: int| 0 <= i < r.len() && r[i] == y;
                if i > 0 {
                    assert(w[i - 1] == y);
                    assert(w.contains(y));
                    if y != x {
                        let k = choose|k: int| 0 <= k < rest.len() && rest[k] == y;
                        assert(names[k + 1] == y);
                    }
                }
            }
            if names.contains(y) {
                let i = choose|i: int| 0 <= i < names.len() && names[i] == y;
                if i == 0 {
                    assert(r[0] == y);
                } else {
                    assert(rest[i - 1] == y);
                    assert(rest.contains(y));
                    assert(w.contains(y));
                    let k = choose|k: int| 0 <= k < w.len() && w[k] == y;
                    assert(r[k + 1] == y);
                }
            }
            if y == x {
                assert(w.contains(x));
                let k = choose|k: int| 0 <= k < w.len() && w[k] == x;
                assert(r[k + 1] == x);
            }
        }
    }
}

/// Two strictly sorted lists of the same names are the same list.
pub proof fn lemma_sorted_unique(a: Seq<Seq<char>>, b: Seq<Seq<char>>)
    requires
        strictly_sorted(a),
        strictly_sorted(b),
        forall|k: Seq<char>| #[trigger] a.contains(k) <==> b.contains(k),
    ensures
        a == b,
    decreases a.len(),
{
    lemma_name_order();
    if a.len() == 0 {
        if b.len() > 0 {
            assert(b.contains(b[0]));
            assert(a.contains(b[0]));
        }
        assert(a =~= b);
    } else {
        assert(a.contains(a[0]));
        assert(b.len() > 0);
        assert(b.contains(b[0]));
        if a[0] != b[0] {
            assert(b.contains(a[0]));
            assert(a.contains(b[0]));
            let j = choose|j: int| 0 <= j < b.len() && b[j] == a[0];
            let i = choose|i: int| 0 <= i < a.len() && a[i] == b[0];
            assert(j > 0 && i > 0);
            assert(name_before(b[0], b[j]));
            assert(name_before(a[0], a[i]));
            assert(name_before(a[0], a[0]));
        }
        let ra = a.drop_first();
        let rb = b.drop_first();
        assert forall|i: int, j: int| 0 <= i < j < ra.len() implies name_before(#[trigger] ra[i], #[trigger] ra[j]) by {
            assert(ra[i] == a[i + 1] && ra[j] == a[j + 1]);
        }
        assert forall|i: int, j: int| 0 <= i < j < rb.len() implies name_before(#[trigger] rb[i], #[trigger] rb[j]) by {
            assert(rb[i] == b[i + 1] && rb[j] == b[j + 1]);
        }
        assert forall|k: Seq<char>| #[trigger] ra.contains(k) <==> rb.contains(k) by {
            if ra.contains(k) {
                let i = choose|i: int| 0 <= i < ra.len() && ra[i] == k;
                assert(a[i + 1] == k);
                assert(a.contains(k));
                assert(b.contains(k));
                let j = choose|j: int| 0 <= j < b.len() && b[j] == k;
                if j == 0 {
                    assert(name_before(a[0], a[i + 1]));
                } else {
                    assert(rb[j - 1] == k);
                }
            }
            if rb.contains(k) {
                let j = choose|j: int| 0 <= j < rb.len() && rb[j] == k;
                assert(b[j + 1] == k);
                assert(b.contains(k));
                assert(a.contains(k));
                let i = choose|i: int| 0 <= i < a.len() && a[i] == k;
                if i == 0 {
                    assert(name_before(b[0], b[j + 1]));
                } else {
                    assert(ra[i - 1] == k);
                }
            }
        }
        lemma_sorted_unique(ra, rb);
        assert(a =~= seq![a[0]] + ra);
        assert(b =~= seq![b[0]] + rb);
    }
}

/// A strictly sorted list of exactly `keys` is the list `in_order` names.
pub proof fn lemma_in_order(s: Seq<Seq<char>>, keys: Set<Seq<char>>)
    requires
        strictly_sorted(s),
        forall|k: Seq<char>| #[trigger] s.contains(k) <==> keys.contains(k),
    ensures
        in_order(keys) == s,
{
    let c = in_order(keys);
    assert(strictly_sorted(c) && forall|k: Seq<char>| #[trigger] c.contains(k) <==> keys.contains(k));
    lemma_sorted_unique(c, s);
}

/// The distinct names of a list, in order.
pub fn sorted_distinct(names: &Vec<String>) -> (r: Vec<String>)
    ensures
        strictly_sorted(names_of(r@)),
        forall|k: Seq<char>| #[trigger] names_of(r@).contains(k) <==> names_of(names@).contains(k),
{
    let mut out: Vec<String> = Vec::new();
    let mut i: usize = 0;
    assert(names_of(out@) =~= Seq::<Seq<char>>::empty());
    while i < names.len()
        invariant
            i <= names.len(),
            strictly_sorted(names_of(out@)),
            forall|k: Seq<char>| #[trigger] names_of(out@).contains(k) <==> names_of(names@).take(i as int).contains(k),
        decreases names.len() - i,
    {
        proof {
            lemma_with_name(names_of(out@), names@[i as int]@);
        }
        crate::sv::add_name(&mut out, &names[i]);
        proof {
            let t = names_of(names@).take(i + 1);
            assert forall|k: Seq<char>| #[trigger] names_of(out@).contains(k) <==> t.contains(k) by {
                let t0 = names_of(names@).take(i as int);
                assert(t =~= t0.push(names@[i as int]@));
                if t.contains(k) {
                    let j = choose|j: int| 0 <= j < t.len() && t[j] == k;
                    if j < i {
                        assert(t0[j] == k);
                        assert(t0.contains(k));
                    }
                }
                if t0.contains(k) {
                    let j = choose|j: int| 0 <= j < t0.len() && t0[j] == k;
                    assert(t[j] == k);
                }
                if k == names@[i as int]@ {
                    assert(t[i as int] == k);
                }
            }
        }
        i = i + 1;
    }
    assert(names_of(names@).take(names.len() as int) =~= names_of(names@));
    out
}

} // verus!
