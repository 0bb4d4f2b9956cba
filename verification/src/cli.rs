//! The command line's own syntax: `SPACE=FILE` pairs.

use vstd::prelude::*;
use vstd::slice::slice_subrange;
use crate::statement::{char_index, lemma_char_index};
use crate::text::{chars_of, push_str, string_from, trim, trim_range};

verus! {

pub open spec fn pair_detail(flag: Seq<char>, item: Seq<char>) -> Seq<char> {
    flag + " expects SPACE=FILE, got '"@ + item + "'"@
}

/// Each `SPACE=FILE` item split at its first `=`, both sides trimmed; or
/// what is wrong with the first that has no `=`.
pub open spec fn pairs_spec(items: Seq<Seq<char>>, flag: Seq<char>) -> Result<Seq<(Seq<char>, Seq<char>)>, Seq<char>>
    decreases items.len(),
{
    if items.len() == 0 {
        Ok(Seq::empty())
    } else {
        match pairs_spec(items.drop_last(), flag) {
            Err(e) => Err(e),
            Ok(r) => {
                let item = items.last();
                match char_index(item, '=') {
                    None => Err(pair_detail(flag, item)),
                    Some(i) => Ok(r.push((trim(item.take(i)), trim(item.skip(i + 1))))),
                }
            },
        }
    }
}

/// Split `SPACE=FILE` arguments into the space's name and the file's.
pub fn name_file(items: &[String], flag: &str) -> (r: Result<Vec<(String, String)>, String>)
    ensures
        match r {
            Ok(v) => pairs_spec(items@.map_values(|s: String| s@), flag@) == Ok::<
                Seq<(Seq<char>, Seq<char>)>,
                Seq<char>,
            >(v@.map_values(|p: (String, String)| (p.0@, p.1@))),
            Err(e) => pairs_spec(items@.map_values(|s: String| s@), flag@) == Err::<
                Seq<(Seq<char>, Seq<char>)>,
                Seq<char>,
            >(e@),
        },
{
    let ghost iv = items@.map_values(|s: String| s@);
    let mut out: Vec<(String, String)> = Vec::new();
    let mut k: usize = 0;
    assert(iv.take(0) =~= Seq::<Seq<char>>::empty());
    assert(out@.map_values(|p: (String, String)| (p.0@, p.1@)) =~= Seq::<(Seq<char>, Seq<char>)>::empty());
    while k < items.len()
        invariant
            k <= items.len(),
            iv == items@.map_values(|s: String| s@),
            pairs_spec(iv.take(k as int), flag@) == Ok::<Seq<(Seq<char>, Seq<char>)>, Seq<char>>(
                out@.map_values(|p: (String, String)| (p.0@, p.1@)),
            ),
        decreases items.len() - k,
    {
        let item = chars_of(items[k].as_str());
        assert(iv.take(k + 1).drop_last() =~= iv.take(k as int));
        assert(iv.take(k + 1).last() == item@);
        match crate::statement::char_position(item.as_slice(), '=') {
            None => {
                let mut m = String::new();
                push_str(&mut m, flag);
                push_str(&mut m, " expects SPACE=FILE, got '");
                push_str(&mut m, items[k].as_str());
                push_str(&mut m, "'");
                proof {
                    lemma_pairs_prefix_error(iv, (k + 1) as int, flag@);
                }
                return Err(m);
            },
            Some(i) => {
                proof {
                    lemma_char_index(item@, '=');
                }
                assert(i < item.len());
                let (a, b) = trim_range(item.as_slice(), 0, i);
                let (c, d) = trim_range(item.as_slice(), i + 1, item.len());
                proof {
                    assert(item@.subrange(0, i as int) =~= item@.take(i as int));
                    assert(item@.subrange(i + 1, item.len() as int) =~= item@.skip(i + 1));
                }
                let name = string_from(slice_subrange(item.as_slice(), a, b));
                let file = string_from(slice_subrange(item.as_slice(), c, d));
                let ghost before = out@.map_values(|p: (String, String)| (p.0@, p.1@));
                out.push((name, file));
                assert(out@.map_values(|p: (String, String)| (p.0@, p.1@)) =~= before.push(
                    (trim(item@.take(i as int)), trim(item@.skip(i + 1))),
                ));
            },
        }
        k = k + 1;
    }
    assert(iv.take(items.len() as int) =~= iv);
    Ok(out)
}

proof fn lemma_pairs_prefix_error(items: Seq<Seq<char>>, k: int, flag: Seq<char>)
    requires
        0 <= k <= items.len(),
        pairs_spec(items.take(k), flag) is Err,
    ensures
        pairs_spec(items, flag) == pairs_spec(items.take(k), flag),
    decreases items.len(),
{
    if k == items.len() {
        assert(items.take(k) =~= items);
    } else {
        assert(items.drop_last().take(k) =~= items.take(k));
        lemma_pairs_prefix_error(items.drop_last(), k, flag);
    }
}

} // verus!
