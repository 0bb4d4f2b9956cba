//! A whole LLVM module for a program: the declarations, the metadata the
//! kernel exports, and its four entrypoints around the lowered flows.

use vstd::prelude::*;
use crate::ast::{
    expr_shape, raw_cells, shape_of_expr, statement_view, statements_view, FlowTarget, Statement, StatementV, ToposBlock,
};
use crate::error::{disruption_view, DisruptionV, HarmonyDisruption};
use crate::llvm::{flows_from, oversize, pair_get, pair_map, primary_of, primary_shape, scratch_spec, Buffers, BuffersV, GenV, LlvmCodeGen};
use crate::llvm_mode::{element_type, sanitized, suffix_of};
use crate::numeric::Precision;
use crate::order::in_order;
use crate::sv::{bits_map, counted, hex_digits, names_of, raw_count, target_name};
use crate::text::{chars_of, debug_dims, decimal, push_char, push_debug_dims, push_decimal, push_str};
use crate::dag::upper_hex;

verus! {

/// An address for each of some spaces, by name.
pub struct AddressTable {
    entries: Vec<(String, u64)>,
}

impl View for AddressTable {
    type V = Map<Seq<char>, u64>;

    closed spec fn view(&self) -> Map<Seq<char>, u64> {
        bits_map(self.entries@)
    }
}

proof fn lemma_address_last(s: Seq<(String, u64)>, k: int, key: Seq<char>)
    requires
        0 <= k < s.len(),
        s[k].0@ == key,
        forall|j: int| k < j < s.len() ==> s[j].0@ != key,
    ensures
        bits_map(s).contains_key(key),
        bits_map(s)[key] == s[k].1,
    decreases s.len(),
{
    if k < s.len() - 1 {
        lemma_address_last(s.drop_last(), k, key);
    }
}

proof fn lemma_address_absent(s: Seq<(String, u64)>, key: Seq<char>)
    requires
        forall|j: int| 0 <= j < s.len() ==> s[j].0@ != key,
    ensures
        !bits_map(s).contains_key(key),
    decreases s.len(),
{
    if s.len() > 0 {
        lemma_address_absent(s.drop_last(), key);
    }
}

proof fn lemma_address_has(s: Seq<(String, u64)>, k: int)
    requires
        0 <= k < s.len(),
    ensures
        bits_map(s).contains_key(s[k].0@),
    decreases s.len(),
{
    if k < s.len() - 1 {
        lemma_address_has(s.drop_last(), k);
    }
}

proof fn lemma_address_dom(s: Seq<(String, u64)>, key: Seq<char>)
    requires
        bits_map(s).contains_key(key),
    ensures
        exists|w: int| 0 <= w < s.len() && (#[trigger] s[w]).0@ == key,
    decreases s.len(),
{
    if s.len() > 0 && s.last().0@ != key {
        lemma_address_dom(s.drop_last(), key);
        let w = choose|w: int| 0 <= w < s.drop_last().len() && (#[trigger] s.drop_last()[w]).0@ == key;
        assert(s[w] == s.drop_last()[w]);
    } else if s.len() > 0 {
        assert(s[s.len() - 1].0@ == key);
    }
}

impl AddressTable {
    #[verifier::spinoff_prover]
    pub fn new() -> (r: AddressTable)
        ensures
            r@ == Map::<Seq<char>, u64>::empty(),
    {
        AddressTable { entries: Vec::new() }
    }

    /// Put the space `name` at `address`.
    #[verifier::spinoff_prover]
    pub fn insert(&mut self, name: &str, address: u64)
        ensures
            final(self)@ == old(self)@.insert(name@, address),
    {
        let mut key = String::new();
        push_str(&mut key, name);
        self.entries.push((key, address));
        proof {
            assert(self.entries@.drop_last() =~= old(self).entries@);
        }
    }

    /// The address of `name`, if it has one.
    #[verifier::spinoff_prover]
    pub fn get(&self, name: &String) -> (r: Option<u64>)
        ensures
            match r {
                Some(v) => self@.contains_key(name@) && self@[name@] == v,
                None => !self@.contains_key(name@),
            },
    {
        let mut k: usize = self.entries.len();
        while k > 0
            invariant
                k <= self.entries.len(),
                forall|j: int| k <= j < self.entries.len() ==> self.entries@[j].0@ != name@,
            decreases k,
        {
            let entry = &self.entries[k - 1];
            if entry.0 == *name {
                proof {
                    lemma_address_last(self.entries@, k - 1, name@);
                }
                return Some(entry.1);
            }
            k = k - 1;
        }
        proof {
            lemma_address_absent(self.entries@, name@);
        }
        None
    }

    /// Whether no space has an address.
    #[verifier::spinoff_prover]
    pub fn is_empty(&self) -> (r: bool)
        ensures
            r == (self@.dom() =~= Set::<Seq<char>>::empty()),
    {
        if self.entries.len() == 0 {
            assert(self@.dom() =~= Set::<Seq<char>>::empty());
            true
        } else {
            proof {
                lemma_address_has(self.entries@, 0);
                assert(self@.dom().contains(self.entries@[0].0@));
            }
            false
        }
    }

    /// Every name with an address, each once, in order.
    #[verifier::spinoff_prover]
    pub fn names(&self) -> (r: Vec<String>)
        ensures
            names_of(r@) == crate::order::in_order(self@.dom()),
            crate::order::strictly_sorted(names_of(r@)),
            forall|k: Seq<char>| #[trigger] names_of(r@).contains(k) <==> self@.dom().contains(k),
    {
        let mut all: Vec<String> = Vec::new();
        let mut i: usize = 0;
        while i < self.entries.len()
            invariant
                i <= self.entries.len(),
                all.len() == i,
                forall|j: int| 0 <= j < i ==> (#[trigger] all@[j])@ == self.entries@[j].0@,
            decreases self.entries.len() - i,
        {
            all.push(self.entries[i].0.clone());
            i = i + 1;
        }
        let r = crate::order::sorted_distinct(&all);
        proof {
            let ns = names_of(all@);
            assert forall|k: Seq<char>| #[trigger] ns.contains(k) <==> self@.dom().contains(k) by {
                if ns.contains(k) {
                    let j = choose|j: int| 0 <= j < ns.len() && ns[j] == k;
                    assert(all@[j]@ == k);
                    lemma_address_has(self.entries@, j);
                }
                if self@.dom().contains(k) {
                    lemma_address_dom(self.entries@, k);
                    let w = choose|w: int| 0 <= w < self.entries@.len() && (#[trigger] self.entries@[w]).0@ == k;
                    assert(ns[w] == k);
                }
            }
            crate::order::lemma_in_order(names_of(r@), self@.dom());
        }
        r
    }
}


// ---------------------------------------------------------------- configuration

/// The shapes and addresses the declarations from statement `i` on give.
pub open spec fn declared_into(
    shapes: Map<Seq<char>, Seq<usize>>,
    bindings: Map<Seq<char>, u64>,
    stmts: Seq<StatementV>,
    i: int,
) -> (Map<Seq<char>, Seq<usize>>, Map<Seq<char>, u64>)
    decreases stmts.len() - i,
{
    if i < 0 || i >= stmts.len() {
        (shapes, bindings)
    } else {
        match stmts[i] {
            StatementV::SpaceDef { name, dims } => declared_into(shapes.insert(name, dims), bindings, stmts, i + 1),
            StatementV::ExtBind { address, name, dims } => declared_into(
                shapes.insert(name, dims),
                bindings.insert(name, address),
                stmts,
                i + 1,
            ),
            _ => declared_into(shapes, bindings, stmts, i + 1),
        }
    }
}

/// The shape a flow gives a space that has none: its value's, else the
/// grid's, else four cells.
pub open spec fn inferred_shape(src: crate::ast::ExprV, shapes: Map<Seq<char>, Seq<usize>>) -> Seq<usize> {
    match shape_of_expr(src, shapes) {
        Some(s) => s,
        None => match primary_shape(shapes) {
            Some(p) => p,
            None => seq![4usize],
        },
    }
}

/// Every space a flow from statement `i` on writes, given a shape if it
/// has none.
pub open spec fn inferred_into(shapes: Map<Seq<char>, Seq<usize>>, stmts: Seq<StatementV>, i: int) -> Map<
    Seq<char>,
    Seq<usize>,
>
    decreases stmts.len() - i,
{
    if i < 0 || i >= stmts.len() {
        shapes
    } else {
        match stmts[i] {
            StatementV::Flow { src, target } => {
                let name = target_name(target);
                if shapes.contains_key(name) {
                    inferred_into(shapes, stmts, i + 1)
                } else {
                    inferred_into(shapes.insert(name, inferred_shape(src, shapes)), stmts, i + 1)
                }
            },
            _ => inferred_into(shapes, stmts, i + 1),
        }
    }
}

/// A space the caller binds without a shape has four cells.
pub open spec fn with_overrides(shapes: Map<Seq<char>, Seq<usize>>, overrides: Map<Seq<char>, u64>) -> Map<
    Seq<char>,
    Seq<usize>,
> {
    Map::new(
        |k: Seq<char>| shapes.contains_key(k) || overrides.contains_key(k),
        |k: Seq<char>|
            if shapes.contains_key(k) {
                shapes[k]
            } else {
                seq![4usize]
            },
    )
}

/// The cells every flow sweeps: the grid's, or four when the grid has none;
/// none when they overflow a machine word.
pub open spec fn grid_cells(shapes: Map<Seq<char>, Seq<usize>>) -> Option<usize> {
    match primary_shape(shapes) {
        None => Some(4usize),
        Some(s) => if raw_cells(s) > usize::MAX {
            None
        } else if raw_cells(s) > 0 {
            Some(raw_cells(s) as usize)
        } else {
            Some(4usize)
        },
    }
}

/// The generator once it has read a program: its declared shapes and
/// addresses, a shape for each space a flow writes, the caller's bindings,
/// and the grid.
pub open spec fn configured(g: GenV, stmts: Seq<StatementV>) -> GenV {
    let d = declared_into(g.shapes, g.bindings, stmts, 0);
    let shapes = with_overrides(inferred_into(d.0, stmts, 0), g.overrides);
    GenV {
        shapes,
        bindings: d.1.union_prefer_right(g.overrides),
        elements: match grid_cells(shapes) {
            Some(e) => e,
            None => g.elements,
        },
        ..g
    }
}

/// The caller's bindings among the first `k` names.
pub open spec fn overrides_upto(ov: Map<Seq<char>, u64>, names: Seq<Seq<char>>, k: int) -> Map<Seq<char>, u64> {
    Map::new(|x: Seq<char>| ov.contains_key(x) && names.take(k).contains(x), |x: Seq<char>| ov[x])
}

impl LlvmCodeGen {
    /// Read a program's shapes and addresses: see `configured`. False when
    /// the grid's cells overflow a machine word.
    #[verifier::spinoff_prover]
    fn configure_for(&mut self, block: &ToposBlock) -> (ok: bool)
        ensures
            final(self)@ == configured(old(self)@, statements_view(block.statements@)),
            ok == (grid_cells(configured(old(self)@, statements_view(block.statements@)).shapes) is Some),
    {
        let ghost g = self@;
        let ghost sv = statements_view(block.statements@);
        let n = block.statements.len();
        let mut i: usize = 0;
        while i < n
            invariant
                i <= n,
                n == block.statements.len(),
                sv == statements_view(block.statements@),
                g == old(self)@,
                self@ == (GenV { shapes: self@.shapes, bindings: self@.bindings, ..g }),
                declared_into(g.shapes, g.bindings, sv, 0) == declared_into(self@.shapes, self@.bindings, sv, i as int),
            decreases n - i,
        {
            assert(sv[i as int] == statement_view(block.statements@[i as int]));
            match &block.statements[i] {
                Statement::SpaceDef(d) => {
                    self.set_shape(&d.name, d.dimensions.as_slice());
                },
                Statement::ExtBind(b) => {
                    self.set_shape(&b.space.name, b.space.dimensions.as_slice());
                    self.add_binding(&b.space.name, b.address);
                },
                _ => {},
            }
            i = i + 1;
        }
        let ghost g1 = self@;
        let mut i: usize = 0;
        while i < n
            invariant
                i <= n,
                n == block.statements.len(),
                sv == statements_view(block.statements@),
                g == old(self)@,
                g1.overrides == g.overrides,
                g1.elements == g.elements,
                declared_into(g.shapes, g.bindings, sv, 0) == (g1.shapes, g1.bindings),
                self@ == (GenV { shapes: self@.shapes, ..g1 }),
                inferred_into(g1.shapes, sv, 0) == inferred_into(self@.shapes, sv, i as int),
            decreases n - i,
        {
            assert(sv[i as int] == statement_view(block.statements@[i as int]));
            match &block.statements[i] {
                Statement::Flow { src, target } => {
                    let name: String = match target {
                        FlowTarget::Var(v) => v.clone(),
                        FlowTarget::Equilibrium => {
                            let mut o = String::new();
                            push_str(&mut o, "OUTPUT");
                            o
                        },
                    };
                    assert(name@ == target_name(crate::ast::target_view(*target)));
                    if self.shape_table().get(&name).is_none() {
                        let shape: Vec<usize> = match expr_shape(src, self.shape_table()) {
                            Some(s) => s,
                            None => match primary_of(self.shape_table()) {
                                Some(p) => p,
                                None => {
                                    let v = vec![4usize];
                                    assert(v@ =~= seq![4usize]);
                                    v
                                },
                            },
                        };
                        self.set_shape(&name, shape.as_slice());
                    }
                },
                _ => {},
            }
            i = i + 1;
        }
        let ghost g2 = self@;
        let ghost ov = g.overrides;
        let names = self.override_table().names();
        let ghost ns = names_of(names@);
        assert(overrides_upto(ov, ns, 0) =~= Map::<Seq<char>, u64>::empty());
        assert(g2.bindings.union_prefer_right(overrides_upto(ov, ns, 0)) =~= g2.bindings);
        assert(with_overrides(g2.shapes, overrides_upto(ov, ns, 0)) =~= g2.shapes);
        let mut k: usize = 0;
        while k < names.len()
            invariant
                k <= names.len(),
                ns == names_of(names@),
                crate::order::strictly_sorted(ns),
                forall|x: Seq<char>| #[trigger] ns.contains(x) <==> ov.dom().contains(x),
                ov == g.overrides,
                g == old(self)@,
                g2.shapes == inferred_into(declared_into(g.shapes, g.bindings, sv, 0).0, sv, 0),
                g2.bindings == declared_into(g.shapes, g.bindings, sv, 0).1,
                g2 == (GenV { shapes: g2.shapes, bindings: g2.bindings, ..g }),
                self@.overrides == ov,
                self@ == (GenV { shapes: self@.shapes, bindings: self@.bindings, ..g2 }),
                self@.bindings == g2.bindings.union_prefer_right(overrides_upto(ov, ns, k as int)),
                self@.shapes == with_overrides(g2.shapes, overrides_upto(ov, ns, k as int)),
            decreases names.len() - k,
        {
            let name = &names[k];
            proof {
                assert(ns[k as int] == name@);
                assert(ns.contains(name@));
            }
            let address = match self.override_table().get(name) {
                Some(a) => a,
                None => {
                    proof {
                        assert(false);
                    }
                    0
                },
            };
            let ghost before_shapes = self@.shapes;
            let ghost p0 = overrides_upto(ov, ns, k as int);
            let ghost p1 = overrides_upto(ov, ns, k + 1);
            proof {
                crate::text::lemma_name_order();
                assert(!ns.take(k as int).contains(name@)) by {
                    if ns.take(k as int).contains(name@) {
                        let j = choose|j: int| 0 <= j < k && ns.take(k as int)[j] == name@;
                        assert(ns[j] == ns[k as int]);
                        assert(crate::text::name_before(ns[j], ns[k as int]));
                    }
                }
                assert(ns.take(k + 1) =~= ns.take(k as int).push(name@));
                assert(ov.contains_key(name@) && ov[name@] == address);
                assert forall|x: Seq<char>| #[trigger] p1.contains_key(x) <==> p0.insert(name@, address).contains_key(x) by {
                    if x == name@ {
                        assert(ns.take(k + 1)[k as int] == x);
                    } else {
                        let t1 = ns.take(k + 1);
                        let t0 = ns.take(k as int);
                        if t1.contains(x) {
                            let j = choose|j: int| 0 <= j < t1.len() && t1[j] == x;
                            assert(t0[j] == x);
                        }
                        if t0.contains(x) {
                            let j = choose|j: int| 0 <= j < t0.len() && t0[j] == x;
                            assert(t1[j] == x);
                        }
                    }
                }
                assert(p1 =~= p0.insert(name@, address));
            }
            self.add_binding(name, address);
            proof {
                assert(self@.bindings =~= g2.bindings.union_prefer_right(p1));
            }
            if self.shape_table().get(name).is_none() {
                let four = vec![4usize];
                self.set_shape(name, four.as_slice());
                proof {
                    assert(four@ =~= seq![4usize]);
                    assert(self@.shapes =~= with_overrides(g2.shapes, p1));
                }
            } else {
                proof {
                    assert(self@.shapes =~= with_overrides(g2.shapes, p1));
                }
            }
            k = k + 1;
        }
        proof {
            assert(ns.take(names.len() as int) =~= ns);
            assert(overrides_upto(ov, ns, names.len() as int) =~= ov);
        }
        let ghost c = configured(g, sv);
        assert(self@.shapes == c.shapes);
        assert(self@.bindings == c.bindings);
        let cells: Option<usize> = match primary_of(self.shape_table()) {
            None => Some(4),
            Some(s) => {
                proof {
                    crate::sv::lemma_raw_nonneg(s@);
                }
                match raw_count(&s) {
                    None => None,
                    Some(c) => if c > 0 {
                        Some(c)
                    } else {
                        Some(4)
                    },
                }
            },
        };
        assert(cells == grid_cells(c.shapes));
        match cells {
            Some(e) => {
                self.set_elements(e);
                assert(self@ == c);
                true
            },
            None => false,
        }
    }
}


// ---------------------------------------------------------------- what flows write

/// Whether statement `s` is a flow into the space `n`.
pub open spec fn flow_writes(s: StatementV, n: Seq<char>) -> bool {
    s matches StatementV::Flow { target, .. } && target_name(target) == n
}

/// Whether some flow writes the space `n`: every other space is read from
/// memory the caller owns.
pub open spec fn writes(stmts: Seq<StatementV>, n: Seq<char>) -> bool {
    exists|i: int| 0 <= i < stmts.len() && flow_writes(#[trigger] stmts[i], n)
}

/// The spaces declared from statement `i` on that no flow writes and no
/// address binds, in statement order.
pub open spec fn unbound_from(g: GenV, stmts: Seq<StatementV>, i: int) -> Seq<Seq<char>>
    decreases stmts.len() - i,
{
    if i < 0 || i >= stmts.len() {
        Seq::empty()
    } else {
        let rest = unbound_from(g, stmts, i + 1);
        match crate::ast::declared_name(stmts[i]) {
            Some((n, _)) => if !writes(stmts, n) && !g.bindings.contains_key(n) {
                seq![n] + rest
            } else {
                rest
            },
            None => rest,
        }
    }
}

// ---------------------------------------------------------------- metadata

/// Parts joined with commas.
pub open spec fn joined(parts: Seq<Seq<char>>) -> Seq<char>
    decreases parts.len(),
{
    if parts.len() == 0 {
        Seq::empty()
    } else if parts.len() == 1 {
        parts[0]
    } else {
        joined(parts.drop_last()) + ","@ + parts.last()
    }
}

/// What a caller does with a space: read the result from it, leave it to
/// the kernel, or supply it.
pub open spec fn role(stmts: Seq<StatementV>, n: Seq<char>) -> Seq<char> {
    if n == "OUTPUT"@ {
        "output"@
    } else if writes(stmts, n) {
        "internal"@
    } else {
        "input"@
    }
}

pub open spec fn space_entry(g: GenV, stmts: Seq<StatementV>, n: Seq<char>) -> Seq<char> {
    "{\"name\":\""@ + n + "\",\"shape\":"@ + debug_dims(g.shapes[n]) + ",\"role\":\""@ + role(stmts, n) + "\"}"@
}

pub open spec fn binding_entry(g: GenV, n: Seq<char>) -> Seq<char> {
    "{\"name\":\""@ + n + "\",\"address\":"@ + decimal(g.bindings[n] as nat) + "}"@
}

pub open spec fn precision_name(p: Precision) -> Seq<char> {
    match p {
        Precision::F64 => "f64"@,
        Precision::F32 => "f32"@,
    }
}

/// The kernel's metadata as JSON: its precision, its cells, each space
/// with its shape and role, each binding, and what the solver proved.
pub open spec fn metadata_json(g: GenV, stmts: Seq<StatementV>) -> Seq<char> {
    "{\"precision\":\""@ + precision_name(g.precision) + "\",\"elements\":"@ + decimal(g.elements as nat)
        + ",\"spaces\":["@ + joined(in_order(g.shapes.dom()).map_values(|n: Seq<char>| space_entry(g, stmts, n)))
        + "],\"bindings\":["@ + joined(in_order(g.bindings.dom()).map_values(|n: Seq<char>| binding_entry(g, n)))
        + "]"@ + match g.contract {
        Some(c) => ",\"contract\":"@ + c,
        None => Seq::empty(),
    } + "}"@
}

// ---------------------------------------------------------------- C strings

/// The UTF-8 bytes of a character.
pub open spec fn utf8(c: char) -> Seq<nat> {
    let u = c as nat;
    if u < 0x80 {
        seq![u]
    } else if u < 0x800 {
        seq![0xC0 + u / 64, 0x80 + u % 64]
    } else if u < 0x10000 {
        seq![0xE0 + u / 4096, 0x80 + (u / 64) % 64, 0x80 + u % 64]
    } else {
        seq![0xF0 + u / 262144, 0x80 + (u / 4096) % 64, 0x80 + (u / 64) % 64, 0x80 + u % 64]
    }
}

/// Bytes as `\XX` escapes.
pub open spec fn byte_escapes(bs: Seq<nat>) -> Seq<char>
    decreases bs.len(),
{
    if bs.len() == 0 {
        Seq::empty()
    } else {
        byte_escapes(bs.drop_last()) + seq!['\\'] + hex_digits(bs.last(), 2)
    }
}

/// A character inside an LLVM `c"..."` literal: a quote and a backslash
/// escaped, printable ASCII as itself, every other byte as `\XX`.
pub open spec fn c_piece(c: char) -> Seq<char> {
    if c == '"' {
        "\\22"@
    } else if c == '\\' {
        "\\5C"@
    } else if ' ' <= c && c <= '~' {
        seq![c]
    } else {
        byte_escapes(utf8(c))
    }
}

pub open spec fn c_text(s: Seq<char>) -> Seq<char>
    decreases s.len(),
{
    if s.len() == 0 {
        Seq::empty()
    } else {
        c_text(s.drop_last()) + c_piece(s.last())
    }
}

/// The bytes the UTF-8 encoding of a text takes.
pub open spec fn byte_len(s: Seq<char>) -> nat
    decreases s.len(),
{
    if s.len() == 0 {
        0
    } else {
        byte_len(s.drop_last()) + utf8(s.last()).len()
    }
}

// ---------------------------------------------------------------- declarations

pub open spec fn vector_of(p: Precision) -> Seq<char> {
    "<4 x "@ + element_type(p) + ">"@
}

/// The declaration of one unary intrinsic, scalar and, with vector loops
/// on, four-lane.
#[verifier::opaque]
pub open spec fn unary_declaration(g: GenV, name: Seq<char>) -> Seq<char> {
    let e = element_type(g.precision);
    let sfx = suffix_of(g.precision);
    "declare "@ + e + " @llvm."@ + name + "."@ + sfx + "("@ + e + ")\n"@ + if g.simd {
        "declare "@ + vector_of(g.precision) + " @llvm."@ + name + ".v4"@ + sfx + "("@ + vector_of(g.precision) + ")\n"@
    } else {
        Seq::empty()
    }
}

/// The power intrinsic, scalar and, with vector loops on, four-lane.
#[verifier::opaque]
pub open spec fn pow_declarations(g: GenV) -> Seq<char> {
    let e = element_type(g.precision);
    let sfx = suffix_of(g.precision);
    "declare "@ + e + " @llvm.pow."@ + sfx + "("@ + e + ", "@ + e + ")\n"@ + (if g.simd {
        "declare "@ + vector_of(g.precision) + " @llvm.pow.v4"@ + sfx + "("@ + vector_of(g.precision) + ", "@
            + vector_of(g.precision) + ")\n"@
    } else {
        Seq::empty()
    })
}

/// Every intrinsic a kernel may call.
pub open spec fn intrinsic_declarations(g: GenV) -> Seq<char> {
    pow_declarations(g) + unary_declaration(g, "exp"@) + unary_declaration(g, "log"@) + unary_declaration(g, "sqrt"@)
        + unary_declaration(g, "sin"@) + unary_declaration(g, "cos"@) + unary_declaration(g, "fabs"@)
}

/// The metadata as a constant the kernel exports: its bytes and a NUL.
pub open spec fn meta_global(json: Seq<char>) -> Seq<char> {
    "@.rho_meta_str = private unnamed_addr constant ["@ + decimal(byte_len(json) + 1) + " x i8] c\""@ + c_text(json)
        + "\\00"@ + "\", align 1\n\n"@
}

/// The module's header: its name, the intrinsics it calls, the allocator,
/// and the metadata string.
pub open spec fn prelude(g: GenV, stmts: Seq<StatementV>) -> Seq<char> {
    "; ModuleID = '"@ + g.module_name + "'\n"@ + "source_filename = \"rho_kernel.rho\"\n"@ + "\n"@
        + intrinsic_declarations(g) + "declare ptr @malloc(i64)\n"@ + "declare void @free(ptr)\n\n"@ + meta_global(
        metadata_json(g, stmts),
    )
}

// ---------------------------------------------------------------- bodies

/// A binding's address as `{:#X}` writes it.
pub open spec fn address_text(a: u64) -> Seq<char> {
    "0x"@ + upper_hex(a as nat)
}

/// What resolving every space to a pointer leaves: the pointers by name,
/// the kernel's heap buffers and the instructions, or the fault.
pub struct Placed {
    pub res: Result<(), DisruptionV>,
    pub map: Map<Seq<char>, Seq<char>>,
    pub heap: Seq<Seq<char>>,
    pub ir: Seq<char>,
}

/// Every space from the `k`-th name on, in order, that `map` does not place
/// yet: a bound one at its address, any other in scratch of its own.
pub open spec fn placed_from(
    g: GenV,
    names: Seq<Seq<char>>,
    k: int,
    map: Map<Seq<char>, Seq<char>>,
    heap: Seq<Seq<char>>,
    ir: Seq<char>,
) -> Placed
    decreases names.len() - k,
{
    if k < 0 || k >= names.len() {
        Placed { res: Ok(()), map, heap, ir }
    } else {
        let n = names[k];
        if map.contains_key(n) {
            placed_from(g, names, k + 1, map, heap, ir)
        } else if g.bindings.contains_key(n) {
            let sym = "%"@ + sanitized(n) + "_ext"@;
            let a = g.bindings[n];
            placed_from(
                g,
                names,
                k + 1,
                map.insert(n, sym),
                heap,
                ir + "  ; Zero-copy binding for ["@ + n + "] at "@ + address_text(a) + "\n"@ + "  "@ + sym
                    + " = inttoptr i64 "@ + decimal(a as nat) + " to ptr\n"@,
            )
        } else {
            match counted(g.shapes[n]) {
                None => Placed { res: Err(oversize(g.line)), map, heap, ir },
                Some(c) => {
                    let s = scratch_spec(g, sanitized(n) + "_buf"@, c, ir, heap);
                    placed_from(g, names, k + 1, map.insert(n, s.0), s.2, s.1)
                },
            }
        }
    }
}

/// The instructions that free each of the kernel's heap buffers.
pub open spec fn frees(heap: Seq<Seq<char>>) -> Seq<char>
    decreases heap.len(),
{
    if heap.len() == 0 {
        Seq::empty()
    } else {
        frees(heap.drop_last()) + "  call void @free(ptr "@ + heap.last() + ")\n"@
    }
}

/// One body, or the fault it stopped at; `peak` is the counter of fresh
/// names it reaches.
pub struct Body {
    pub res: Result<Seq<char>, DisruptionV>,
    pub peak: int,
}

/// A body: every space resolved to a pointer, the flows, the kernel's heap
/// buffers freed, and a return.
pub open spec fn body_spec(
    g: GenV,
    stmts: Seq<StatementV>,
    lines: Seq<usize>,
    provided: Map<Seq<char>, Seq<char>>,
    entry: Seq<char>,
    heap: Seq<Seq<char>>,
    bound: Seq<char>,
    ir: Seq<char>,
) -> Body {
    let p = placed_from(g, in_order(g.shapes.dom()), 0, provided, heap, ir);
    match p.res {
        Err(d) => Body { res: Err(d), peak: 0 },
        Ok(_) => {
            let b = BuffersV { map: p.map, folds: Map::empty(), heap: p.heap, bound };
            let f = flows_from(g, stmts, lines, 0, 0, entry, b, p.ir, 0);
            match f.res {
                Err(d) => Body { res: Err(d), peak: f.next },
                Ok(_) => Body { res: Ok(f.ir + frees(f.bufs.heap) + "  ret void\n"@), peak: f.next },
            }
        },
    }
}

/// The pointers an entrypoint with an input and an output starts from.
pub open spec fn in_out(i: Seq<char>, o: Seq<char>) -> Map<Seq<char>, Seq<char>> {
    Map::<Seq<char>, Seq<char>>::empty().insert("INPUT"@, i).insert("OUTPUT"@, o)
}

/// Appends a body, then closes the function.
pub open spec fn closed_body(b: Body) -> Body {
    match b.res {
        Ok(t) => Body { res: Ok(t + "}\n\n"@), peak: b.peak },
        Err(d) => b,
    }
}


// ---------------------------------------------------------------- entrypoints

/// The input of the static entrypoint: its binding, else scratch; with the
/// instructions and heap that leaves.
pub open spec fn static_input(g: GenV, ir: Seq<char>) -> (Seq<char>, Seq<char>, Seq<Seq<char>>) {
    if g.bindings.contains_key("INPUT"@) {
        let a = g.bindings["INPUT"@];
        (
            "%INPUT_ext"@,
            ir + "  ; Zero-copy binding for ["@ + "INPUT"@ + "] at "@ + address_text(a) + "\n"@ + "  "@ + "%INPUT_ext"@
                + " = inttoptr i64 "@ + decimal(a as nat) + " to ptr\n"@,
            Seq::empty(),
        )
    } else {
        scratch_spec(g, "INPUT_local"@, g.elements, ir, Seq::empty())
    }
}

/// The output of the static entrypoint: its binding, else the input when
/// that is bound (the grid transformed in place), else scratch.
pub open spec fn static_output(g: GenV, input: Seq<char>, ir: Seq<char>, heap: Seq<Seq<char>>) -> (
    Seq<char>,
    Seq<char>,
    Seq<Seq<char>>,
) {
    if g.bindings.contains_key("OUTPUT"@) {
        let a = g.bindings["OUTPUT"@];
        (
            "%OUTPUT_ext"@,
            ir + "  ; Zero-copy binding for ["@ + "OUTPUT"@ + "] at "@ + address_text(a) + "\n"@ + "  "@ + "%OUTPUT_ext"@
                + " = inttoptr i64 "@ + decimal(a as nat) + " to ptr\n"@,
            heap,
        )
    } else if g.bindings.contains_key("INPUT"@) {
        (input, ir, heap)
    } else {
        scratch_spec(g, "OUTPUT_local"@, g.elements, ir, heap)
    }
}

/// The names that are not bound, each as a comment.
pub open spec fn unbound_lines(names: Seq<Seq<char>>) -> Seq<char>
    decreases names.len(),
{
    if names.len() == 0 {
        Seq::empty()
    } else {
        unbound_lines(names.drop_last()) + "  ;   ["@ + names.last() + "] is unbound\n"@
    }
}

/// `void rho_kernel_exec()`: runs on the addresses the program binds, and
/// only when every space it reads is bound.
pub open spec fn static_entry(g: GenV, stmts: Seq<StatementV>, lines: Seq<usize>, ir: Seq<char>) -> Body {
    let head = ir + "define void @rho_kernel_exec() #0 {\n"@ + "entry:\n"@;
    let unbound = unbound_from(g, stmts, 0);
    if unbound.len() == 0 && g.bindings.dom() != Set::<Seq<char>>::empty() {
        let i = static_input(g, head);
        let o = static_output(g, i.0, i.1, i.2);
        closed_body(body_spec(g, stmts, lines, in_out(i.0, o.0), "entry"@, o.2, decimal(g.elements as nat), o.1))
    } else {
        Body {
            res: Ok(
                head + "  ; Not every space this kernel reads has an & binding:\n"@ + unbound_lines(unbound)
                    + "  ; Use rho_kernel_exec_with_args, or compile with --bind NAME=0x...\n"@ + "  ret void\n"@
                    + "}\n\n"@,
            ),
            peak: 0,
        }
    }
}

/// `void rho_kernel_exec_with_args(ptr, ptr)`: a null input returns at
/// once, a null output transforms the input in place.
pub open spec fn args_entry(g: GenV, stmts: Seq<StatementV>, lines: Seq<usize>, ir: Seq<char>) -> Body {
    let head = ir + "define void @rho_kernel_exec_with_args(ptr %in_ptr, ptr %out_ptr) #0 {\n"@ + "entry:\n"@
        + "  ; Null pointer safety check\n"@ + "  %in_null = icmp eq ptr %in_ptr, null\n"@
        + "  br i1 %in_null, label %safety_fail, label %exec_start\n\n"@ + "safety_fail:\n"@ + "  ret void\n\n"@
        + "exec_start:\n"@ + "  %out_null = icmp eq ptr %out_ptr, null\n"@
        + "  %out_effective = select i1 %out_null, ptr %in_ptr, ptr %out_ptr\n"@;
    closed_body(
        body_spec(
            g,
            stmts,
            lines,
            in_out("%in_ptr"@, "%out_effective"@),
            "exec_start"@,
            Seq::empty(),
            decimal(g.elements as nat),
            head,
        ),
    )
}

/// `void rho_kernel_exec_bounded(ptr, ptr, i64)`: the sweep clamped to the
/// cells the caller owns.
pub open spec fn bounded_entry(g: GenV, stmts: Seq<StatementV>, lines: Seq<usize>, ir: Seq<char>) -> Body {
    let head = ir + "define void @rho_kernel_exec_bounded(ptr %in_ptr, ptr %out_ptr, i64 %n) #0 {\n"@ + "entry:\n"@
        + "  %b_in_null = icmp eq ptr %in_ptr, null\n"@ + "  br i1 %b_in_null, label %bounded_fail, label %bounded_start\n\n"@
        + "bounded_fail:\n"@ + "  ret void\n\n"@ + "bounded_start:\n"@ + "  %b_out_null = icmp eq ptr %out_ptr, null\n"@
        + "  %b_out_effective = select i1 %b_out_null, ptr %in_ptr, ptr %out_ptr\n"@ + "  %b_short = icmp ult i64 %n, "@
        + decimal(g.elements as nat) + "\n"@ + "  %sweep = select i1 %b_short, i64 %n, i64 "@ + decimal(g.elements as nat)
        + "\n"@;
    closed_body(
        body_spec(
            g,
            stmts,
            lines,
            in_out("%in_ptr"@, "%b_out_effective"@),
            "bounded_start"@,
            Seq::empty(),
            "%sweep"@,
            head,
        ),
    )
}

/// Loading each space's pointer from the array, from the `k`-th name on:
/// the instructions, the pointers, the null flags of the spaces only read,
/// and the spaces flows write with their pointer and flag.
pub struct Slots {
    pub ir: Seq<char>,
    pub provided: Map<Seq<char>, Seq<char>>,
    pub required: Seq<Seq<char>>,
    pub optional: Seq<(Seq<char>, Seq<char>, Seq<char>)>,
}

pub open spec fn slots_upto(g: GenV, stmts: Seq<StatementV>, names: Seq<Seq<char>>, k: nat, ir: Seq<char>) -> Slots
    decreases k,
{
    if k == 0 {
        Slots { ir, provided: Map::empty(), required: Seq::empty(), optional: Seq::empty() }
    } else {
        let prev = slots_upto(g, stmts, names, (k - 1) as nat, ir);
        let n = names[k - 1];
        let id = sanitized(n);
        let slot = "%"@ + id + "_slot"@;
        let arg = "%"@ + id + "_arg"@;
        let flag = "%"@ + id + "_null"@;
        let text = prev.ir + "  ; ["@ + n + "] is spaces["@ + decimal((k - 1) as nat) + "]\n"@ + "  "@ + slot
            + " = getelementptr ptr, ptr %spaces, i64 "@ + decimal((k - 1) as nat) + "\n"@ + "  "@ + arg + " = load ptr, ptr "@
            + slot + "\n"@ + "  "@ + flag + " = icmp eq ptr "@ + arg + ", null\n"@;
        if writes(stmts, n) {
            Slots {
                ir: text,
                provided: prev.provided.insert(n, arg),
                required: prev.required,
                optional: prev.optional.push((n, arg, flag)),
            }
        } else {
            Slots {
                ir: text,
                provided: prev.provided.insert(n, arg),
                required: prev.required.push(flag),
                optional: prev.optional,
            }
        }
    }
}

/// The flags of the spaces only read, or-ed together: the `m` first.
pub open spec fn missing_upto(flags: Seq<Seq<char>>, m: nat, ir: Seq<char>) -> (Seq<char>, Seq<char>)
    decreases m,
{
    if m <= 1 {
        (flags[0], ir)
    } else {
        let prev = missing_upto(flags, (m - 1) as nat, ir);
        let next = "%missing"@ + decimal((m - 2) as nat);
        (next, prev.1 + "  "@ + next + " = or i1 "@ + prev.0 + ", "@ + flags[m - 1] + "\n"@)
    }
}

/// The branch to the body: straight on when every space may be the
/// kernel's own, else away when a space it only reads is null.
pub open spec fn guard(required: Seq<Seq<char>>, ir: Seq<char>) -> Seq<char> {
    if required.len() == 0 {
        ir + "  br label %spaces_start\n\n"@
    } else {
        let m = missing_upto(required, required.len(), ir);
        m.1 + "  br i1 "@ + m.0 + ", label %spaces_fail, label %spaces_start\n\n"@
    }
}

/// Scratch for each space a flow writes, taken when the caller passes
/// null for it: the first `k` of them.
pub open spec fn owned_upto(
    g: GenV,
    optional: Seq<(Seq<char>, Seq<char>, Seq<char>)>,
    k: nat,
    provided: Map<Seq<char>, Seq<char>>,
    ir: Seq<char>,
) -> (Result<(), DisruptionV>, Map<Seq<char>, Seq<char>>, Seq<Seq<char>>, Seq<char>)
    decreases k,
{
    if k == 0 {
        (Ok(()), provided, Seq::empty(), ir)
    } else {
        let prev = owned_upto(g, optional, (k - 1) as nat, provided, ir);
        match prev.0 {
            Err(d) => prev,
            Ok(_) => {
                let (n, arg, flag) = optional[k - 1];
                let id = sanitized(n);
                match counted(g.shapes[n]) {
                    None => (Err(oversize(g.line)), prev.1, prev.2, prev.3),
                    Some(c) => {
                        let s = scratch_spec(g, id + "_own"@, c, prev.3, prev.2);
                        let eff = "%"@ + id + "_eff"@;
                        (
                            Ok(()),
                            prev.1.insert(n, eff),
                            s.2,
                            s.1 + "  "@ + eff + " = select i1 "@ + flag + ", ptr "@ + s.0 + ", ptr "@ + arg + "\n"@,
                        )
                    },
                }
            },
        }
    }
}

/// `void rho_kernel_exec_spaces(ptr)`: one pointer per space, in the order
/// the metadata lists them; a null one for a space no flow writes returns
/// at once, a null one for a space a flow writes gives it scratch.
pub open spec fn spaces_entry(g: GenV, stmts: Seq<StatementV>, lines: Seq<usize>, ir: Seq<char>) -> Body {
    let names = in_order(g.shapes.dom());
    let head = ir + "define void @rho_kernel_exec_spaces(ptr %spaces) #0 {\n"@ + "entry:\n"@
        + "  %spaces_null = icmp eq ptr %spaces, null\n"@ + "  br i1 %spaces_null, label %spaces_fail, label %spaces_load\n\n"@
        + "spaces_fail:\n"@ + "  ret void\n\n"@ + "spaces_load:\n"@;
    let sl = slots_upto(g, stmts, names, names.len(), head);
    let start = guard(sl.required, sl.ir) + "spaces_start:\n"@;
    let own = owned_upto(g, sl.optional, sl.optional.len(), sl.provided, start);
    match own.0 {
        Err(d) => Body { res: Err(d), peak: 0 },
        Ok(_) => closed_body(body_spec(g, stmts, lines, own.1, "spaces_start"@, own.2, decimal(g.elements as nat), own.3)),
    }
}

/// The two exports that describe the kernel, and the attributes.
pub open spec fn epilogue(g: GenV) -> Seq<char> {
    "define ptr @rho_kernel_metadata() #0 {\n"@ + "entry:\n"@ + "  ret ptr @.rho_meta_str\n"@ + "}\n\n"@
        + "define i64 @rho_kernel_element_count() #0 {\n"@ + "entry:\n"@ + "  ret i64 "@ + decimal(g.elements as nat)
        + "\n"@ + "}\n\n"@ + "attributes #0 = { nounwind uwtable }\n"@
}

/// Two bodies in turn: the second starts from the first's text; the peak
/// is the larger.
pub open spec fn then(a: Body, f: spec_fn(Seq<char>) -> Body) -> Body {
    match a.res {
        Err(d) => a,
        Ok(t) => {
            let b = f(t);
            Body { res: b.res, peak: if a.peak >= b.peak { a.peak } else { b.peak } }
        },
    }
}

/// The module of a configured generator.
pub open spec fn module_of(g: GenV, stmts: Seq<StatementV>, lines: Seq<usize>) -> Body {
    let a = static_entry(g, stmts, lines, prelude(g, stmts));
    let b = then(a, |t: Seq<char>| args_entry(g, stmts, lines, t));
    let c = then(b, |t: Seq<char>| bounded_entry(g, stmts, lines, t));
    let d = then(c, |t: Seq<char>| spaces_entry(g, stmts, lines, t));
    match d.res {
        Ok(t) => Body { res: Ok(t + epilogue(g)), peak: d.peak },
        Err(_) => d,
    }
}

/// The whole LLVM module for a program: the generator configured for it,
/// then its module; a grid whose cells overflow a machine word is refused.
pub open spec fn module_spec(g: GenV, stmts: Seq<StatementV>, lines: Seq<usize>) -> Body {
    let c = configured(g, stmts);
    if grid_cells(c.shapes) is None {
        Body { res: Err(oversize(0)), peak: 0 }
    } else {
        module_of(c, stmts, lines)
    }
}


// ---------------------------------------------------------------- building the text

/// The names the flows of `block` write.
#[verifier::spinoff_prover]
fn written_names(block: &ToposBlock) -> (r: Vec<String>)
    ensures
        forall|n: Seq<char>| #[trigger] names_of(r@).contains(n) <==> writes(statements_view(block.statements@), n),
{
    let ghost sv = statements_view(block.statements@);
    let mut out: Vec<String> = Vec::new();
    let mut i: usize = 0;
    while i < block.statements.len()
        invariant
            i <= block.statements.len(),
            sv == statements_view(block.statements@),
            forall|n: Seq<char>| #[trigger] names_of(out@).contains(n) <==> exists|j: int| 0 <= j < i && flow_writes(#[trigger] sv[j], n),
        decreases block.statements.len() - i,
    {
        assert(sv[i as int] == statement_view(block.statements@[i as int]));
        let ghost before = names_of(out@);
        match &block.statements[i] {
            Statement::Flow { target, .. } => {
                let name: String = match target {
                    FlowTarget::Var(v) => v.clone(),
                    FlowTarget::Equilibrium => {
                        let mut o = String::new();
                        push_str(&mut o, "OUTPUT");
                        o
                    },
                };
                assert(name@ == target_name(crate::ast::target_view(*target)));
                out.push(name);
                proof {
                    assert(names_of(out@) =~= before.push(name@));
                    assert forall|n: Seq<char>| #[trigger] names_of(out@).contains(n) <==> exists|j: int|
                        0 <= j < i + 1 && flow_writes(#[trigger] sv[j], n) by {
                        if names_of(out@).contains(n) && n != name@ {
                            let k = choose|k: int| 0 <= k < names_of(out@).len() && names_of(out@)[k] == n;
                            assert(before[k] == n);
                            assert(before.contains(n));
                        }
                        if n == name@ {
                            assert(flow_writes(sv[i as int], n));
                            assert(names_of(out@)[before.len() as int] == n);
                        }
                        if exists|j: int| 0 <= j < i + 1 && flow_writes(#[trigger] sv[j], n) {
                            let j = choose|j: int| 0 <= j < i + 1 && flow_writes(#[trigger] sv[j], n);
                            if j < i {
                                assert(before.contains(n));
                                let k = choose|k: int| 0 <= k < before.len() && before[k] == n;
                                assert(names_of(out@)[k] == n);
                            }
                        }
                    }
                }
            },
            _ => {
                proof {
                    assert forall|n: Seq<char>| #[trigger] names_of(out@).contains(n) <==> exists|j: int|
                        0 <= j < i + 1 && flow_writes(#[trigger] sv[j], n) by {
                        if exists|j: int| 0 <= j < i + 1 && flow_writes(#[trigger] sv[j], n) {
                            let j = choose|j: int| 0 <= j < i + 1 && flow_writes(#[trigger] sv[j], n);
                            assert(j < i);
                        }
                    }
                }
            },
        }
        i = i + 1;
    }
    out
}

proof fn lemma_joined_step(parts: Seq<Seq<char>>, k: int)
    requires
        0 <= k < parts.len(),
    ensures
        joined(parts.take(k + 1)) == joined(parts.take(k)) + (if k > 0 {
            ","@
        } else {
            Seq::<char>::empty()
        }) + parts[k],
{
    assert(parts.take(k + 1).drop_last() =~= parts.take(k));
    if k == 0 {
        assert(parts.take(0) =~= Seq::<Seq<char>>::empty());
        assert(joined(parts.take(1)) == parts.take(1)[0]);
        assert(Seq::<char>::empty() + Seq::<char>::empty() + parts[0] =~= parts[0]);
    }
}

/// One byte as two upper-case hexadecimal digits.
#[verifier::spinoff_prover]
fn push_hex2(s: &mut String, b: u64)
    requires
        b < 256,
    ensures
        final(s)@ == old(s)@ + hex_digits(b as nat, 2),
{
    let hi = crate::sv::hex_digit(b / 16);
    let lo = crate::sv::hex_digit(b % 16);
    push_char(s, hi);
    push_char(s, lo);
    proof {
        assert(hex_digits(b as nat, 2) == hex_digits((b / 16) as nat, 1).push(crate::sv::hex_char((b % 16) as nat)));
        assert(hex_digits((b / 16) as nat, 1) == hex_digits((b / 256) as nat, 0).push(crate::sv::hex_char(((b / 16) % 16) as nat)));
        assert((b / 16) % 16 == b / 16);
        assert(s@ =~= old(s)@ + hex_digits(b as nat, 2));
    }
}

/// One character inside a `c"..."` literal; how many bytes it takes.
#[verifier::spinoff_prover]
fn push_c_piece(s: &mut String, c: char) -> (n: usize)
    ensures
        final(s)@ == old(s)@ + c_piece(c),
        n == utf8(c).len(),
{
    let u = c as u32;
    if c == '"' {
        push_str(s, "\\22");
        1
    } else if c == '\\' {
        push_str(s, "\\5C");
        1
    } else if ' ' <= c && c <= '~' {
        push_char(s, c);
        1
    } else {
        let ghost bs = utf8(c);
        let bytes: Vec<u64> = if u < 0x80 {
            vec![u as u64]
        } else if u < 0x800 {
            vec![0xC0 + (u / 64) as u64, 0x80 + (u % 64) as u64]
        } else if u < 0x10000 {
            vec![0xE0 + (u / 4096) as u64, 0x80 + ((u / 64) % 64) as u64, 0x80 + (u % 64) as u64]
        } else {
            vec![0xF0 + (u / 262144) as u64, 0x80 + ((u / 4096) % 64) as u64, 0x80 + ((u / 64) % 64) as u64, 0x80 + (u % 64) as u64]
        };
        assert(u as nat == c as nat);
        assert(u <= 0x10FFFF);
        assert(bytes@.len() == bs.len());
        assert forall|j: int| 0 <= j < bs.len() implies bytes@[j] as nat == bs[j] && bytes@[j] < 256 by {}
        let mut k: usize = 0;
        let ghost start = s@;
        assert(bs.take(0) =~= Seq::<nat>::empty());
        while k < bytes.len()
            invariant
                k <= bytes.len(),
                bytes@.len() == bs.len(),
                forall|j: int| 0 <= j < bs.len() ==> bytes@[j] as nat == bs[j] && bytes@[j] < 256,
                s@ == start + byte_escapes(bs.take(k as int)),
            decreases bytes.len() - k,
        {
            let b = bytes[k];
            assert(bytes@[k as int] as nat == bs[k as int] && bytes@[k as int] < 256);
            push_char(s, '\\');
            push_hex2(s, b);
            proof {
                assert(bs.take(k + 1).drop_last() =~= bs.take(k as int));
                assert(bs.take(k + 1).last() == bs[k as int]);
            }
            k = k + 1;
        }
        assert(bs.take(bs.len() as int) =~= bs);
        bytes.len()
    }
}

/// A text as the body of a `c"..."` literal, and how many bytes it takes.
#[verifier::spinoff_prover]
fn push_c_text(s: &mut String, t: &String) -> (n: u128)
    ensures
        n <= 4 * usize::MAX,
        final(s)@ == old(s)@ + c_text(t@),
        n == byte_len(t@),
{
    let cs = chars_of(t.as_str());
    let mut i: usize = 0;
    let mut n: u128 = 0;
    let ghost start = s@;
    assert(t@.take(0) =~= Seq::<char>::empty());
    while i < cs.len()
        invariant
            i <= cs.len(),
            cs@ == t@,
            s@ == start + c_text(t@.take(i as int)),
            n == byte_len(t@.take(i as int)),
            n <= 4 * i,
        decreases cs.len() - i,
    {
        proof {
            assert(t@.take(i + 1).drop_last() =~= t@.take(i as int));
            assert(t@.take(i + 1).last() == t@[i as int]);
        }
        let m = push_c_piece(s, cs[i]);
        n = n + m as u128;
        i = i + 1;
    }
    assert(t@.take(cs.len() as int) =~= t@);
    n
}



impl LlvmCodeGen {
    /// The kernel's metadata: see `metadata_json`.
    #[verifier::spinoff_prover]
    #[verifier::rlimit(60)]
    fn metadata(&self, written: &Vec<String>, Ghost(stmts): Ghost<Seq<StatementV>>) -> (r: String)
        requires
            forall|n: Seq<char>| #[trigger] names_of(written@).contains(n) <==> writes(stmts, n),
        ensures
            r@ == metadata_json(self@, stmts),
    {
        let ghost g = self@;
        let mut out = String::new();
        push_str(&mut out, "{\"precision\":\"");
        push_str(&mut out, self.precision_of().name());
        push_str(&mut out, "\",\"elements\":");
        push_decimal(&mut out, self.element_count() as u64);
        push_str(&mut out, ",\"spaces\":[");
        let ghost head = out@;
        let names = self.shape_table().names();
        let ghost parts = in_order(g.shapes.dom()).map_values(|n: Seq<char>| space_entry(g, stmts, n));
        let mut output = String::new();
        push_str(&mut output, "OUTPUT");
        assert(parts.take(0) =~= Seq::<Seq<char>>::empty());
        let mut k: usize = 0;
        while k < names.len()
            invariant
                k <= names.len(),
                g == self@,
                names_of(names@) == in_order(g.shapes.dom()),
                forall|x: Seq<char>| #[trigger] names_of(names@).contains(x) <==> g.shapes.dom().contains(x),
                parts == in_order(g.shapes.dom()).map_values(|n: Seq<char>| space_entry(g, stmts, n)),
                output@ == "OUTPUT"@,
                forall|n: Seq<char>| #[trigger] names_of(written@).contains(n) <==> writes(stmts, n),
                out@ == head + joined(parts.take(k as int)),
            decreases names.len() - k,
        {
            let name = &names[k];
            proof {
                assert(names_of(names@)[k as int] == name@);
                assert(names_of(names@).contains(name@));
                lemma_joined_step(parts, k as int);
            }
            if k > 0 {
                push_str(&mut out, ",");
            }
            push_str(&mut out, "{\"name\":\"");
            push_str(&mut out, name.as_str());
            push_str(&mut out, "\",\"shape\":");
            match self.shape_table().get(name) {
                Some(shape) => push_debug_dims(&mut out, shape.as_slice()),
                None => {
                    proof {
                        assert(false);
                    }
                },
            }
            push_str(&mut out, ",\"role\":\"");
            if *name == output {
                push_str(&mut out, "output");
            } else if crate::sv::contains_name(written, name) {
                push_str(&mut out, "internal");
            } else {
                push_str(&mut out, "input");
            }
            push_str(&mut out, "\"}");
            proof {
                assert(parts[k as int] == space_entry(g, stmts, name@));
                assert(out@ =~= head + joined(parts.take(k + 1)));
            }
            k = k + 1;
        }
        assert(parts.take(names.len() as int) =~= parts);
        push_str(&mut out, "],\"bindings\":[");
        let ghost head2 = out@;
        let bnames = self.binding_table().names();
        let ghost bparts = in_order(g.bindings.dom()).map_values(|n: Seq<char>| binding_entry(g, n));
        assert(bparts.take(0) =~= Seq::<Seq<char>>::empty());
        let mut k: usize = 0;
        while k < bnames.len()
            invariant
                k <= bnames.len(),
                g == self@,
                names_of(bnames@) == in_order(g.bindings.dom()),
                forall|x: Seq<char>| #[trigger] names_of(bnames@).contains(x) <==> g.bindings.dom().contains(x),
                bparts == in_order(g.bindings.dom()).map_values(|n: Seq<char>| binding_entry(g, n)),
                out@ == head2 + joined(bparts.take(k as int)),
            decreases bnames.len() - k,
        {
            let name = &bnames[k];
            proof {
                assert(names_of(bnames@)[k as int] == name@);
                assert(names_of(bnames@).contains(name@));
                lemma_joined_step(bparts, k as int);
            }
            if k > 0 {
                push_str(&mut out, ",");
            }
            push_str(&mut out, "{\"name\":\"");
            push_str(&mut out, name.as_str());
            push_str(&mut out, "\",\"address\":");
            match self.binding_table().get(name) {
                Some(a) => push_decimal(&mut out, a),
                None => {
                    proof {
                        assert(false);
                    }
                },
            }
            push_str(&mut out, "}");
            proof {
                assert(bparts[k as int] == binding_entry(g, name@));
                assert(out@ =~= head2 + joined(bparts.take(k + 1)));
            }
            k = k + 1;
        }
        assert(bparts.take(bnames.len() as int) =~= bparts);
        push_str(&mut out, "]");
        match self.contract_json() {
            Some(c) => {
                push_str(&mut out, ",\"contract\":");
                push_str(&mut out, c.as_str());
            },
            None => {},
        }
        push_str(&mut out, "}");
        assert(out@ =~= metadata_json(g, stmts));
        out
    }
}


impl LlvmCodeGen {
    #[verifier::spinoff_prover]
    fn push_vector(&self, ir: &mut String)
        ensures
            final(ir)@ == old(ir)@ + vector_of(self@.precision),
    {
        push_str(ir, "<4 x ");
        push_str(ir, self.precision_of().llvm_type());
        push_str(ir, ">");
        proof {
            reveal_strlit("double");
            reveal_strlit("float");
        }
        assert(ir@ =~= old(ir)@ + vector_of(self@.precision));
    }

    #[verifier::spinoff_prover]
    fn push_vector_declaration(&self, ir: &mut String, name: &str)
        ensures
            final(ir)@ == old(ir)@ + "declare "@ + vector_of(self@.precision) + " @llvm."@ + name@ + ".v4"@ + suffix_of(
                self@.precision,
            ) + "("@ + vector_of(self@.precision) + ")\n"@,
    {
        let sfx = self.precision_of().intrinsic_suffix();
        push_str(ir, "declare ");
        self.push_vector(ir);
        push_str(ir, " @llvm.");
        push_str(ir, name);
        push_str(ir, ".v4");
        push_str(ir, sfx);
        push_str(ir, "(");
        self.push_vector(ir);
        push_str(ir, ")\n");
    }

    #[verifier::spinoff_prover]
    fn push_scalar_declaration(&self, ir: &mut String, name: &str)
        ensures
            final(ir)@ == old(ir)@ + "declare "@ + element_type(self@.precision) + " @llvm."@ + name@ + "."@ + suffix_of(
                self@.precision,
            ) + "("@ + element_type(self@.precision) + ")\n"@,
    {
        let e = self.precision_of().llvm_type();
        let sfx = self.precision_of().intrinsic_suffix();
        push_str(ir, "declare ");
        push_str(ir, e);
        push_str(ir, " @llvm.");
        push_str(ir, name);
        push_str(ir, ".");
        push_str(ir, sfx);
        push_str(ir, "(");
        push_str(ir, e);
        push_str(ir, ")\n");
    }

    #[verifier::spinoff_prover]
    fn push_unary_declaration(&self, ir: &mut String, name: &str)
        ensures
            final(ir)@ == old(ir)@ + unary_declaration(self@, name@),
    {
        let ghost start = ir@;
        self.push_scalar_declaration(ir, name);
        if self.simd_on() {
            self.push_vector_declaration(ir, name);
        }
        reveal(unary_declaration);
        assert(ir@ =~= start + unary_declaration(self@, name@));
    }

    #[verifier::spinoff_prover]
    fn push_scalar_pow(&self, ir: &mut String)
        ensures
            final(ir)@ == old(ir)@ + "declare "@ + element_type(self@.precision) + " @llvm.pow."@ + suffix_of(self@.precision)
                + "("@ + element_type(self@.precision) + ", "@ + element_type(self@.precision) + ")\n"@,
    {
        let e = self.precision_of().llvm_type();
        let sfx = self.precision_of().intrinsic_suffix();
        push_str(ir, "declare ");
        push_str(ir, e);
        push_str(ir, " @llvm.pow.");
        push_str(ir, sfx);
        push_str(ir, "(");
        push_str(ir, e);
        push_str(ir, ", ");
        push_str(ir, e);
        push_str(ir, ")\n");
    }

    #[verifier::spinoff_prover]
    fn push_vector_pow(&self, ir: &mut String)
        ensures
            final(ir)@ == old(ir)@ + "declare "@ + vector_of(self@.precision) + " @llvm.pow.v4"@ + suffix_of(self@.precision)
                + "("@ + vector_of(self@.precision) + ", "@ + vector_of(self@.precision) + ")\n"@,
    {
        let sfx = self.precision_of().intrinsic_suffix();
        push_str(ir, "declare ");
        self.push_vector(ir);
        push_str(ir, " @llvm.pow.v4");
        push_str(ir, sfx);
        push_str(ir, "(");
        self.push_vector(ir);
        push_str(ir, ", ");
        self.push_vector(ir);
        push_str(ir, ")\n");
    }

    #[verifier::spinoff_prover]
    fn push_pow_declarations(&self, ir: &mut String)
        ensures
            final(ir)@ == old(ir)@ + pow_declarations(self@),
    {
        let ghost start = ir@;
        self.push_scalar_pow(ir);
        if self.simd_on() {
            self.push_vector_pow(ir);
        }
        reveal(pow_declarations);
        assert(ir@ =~= start + pow_declarations(self@));
    }

    #[verifier::spinoff_prover]
    fn push_intrinsic_declarations(&self, ir: &mut String)
        ensures
            final(ir)@ == old(ir)@ + intrinsic_declarations(self@),
    {
        let ghost start = ir@;
        self.push_pow_declarations(ir);
        self.push_unary_declaration(ir, "exp");
        self.push_unary_declaration(ir, "log");
        self.push_unary_declaration(ir, "sqrt");
        self.push_unary_declaration(ir, "sin");
        self.push_unary_declaration(ir, "cos");
        self.push_unary_declaration(ir, "fabs");
        assert(ir@ =~= start + intrinsic_declarations(self@));
    }

    /// The module's header: see `prelude`.
    #[verifier::spinoff_prover]
    fn push_prelude(&self, ir: &mut String, written: &Vec<String>, Ghost(stmts): Ghost<Seq<StatementV>>)
        requires
            forall|n: Seq<char>| #[trigger] names_of(written@).contains(n) <==> writes(stmts, n),
        ensures
            final(ir)@ == old(ir)@ + prelude(self@, stmts),
    {
        let json = self.metadata(written, Ghost(stmts));
        let ghost start = ir@;
        push_str(ir, "; ModuleID = '");
        push_str(ir, self.module_name_text().as_str());
        push_str(ir, "'\n");
        push_str(ir, "source_filename = \"rho_kernel.rho\"\n");
        push_str(ir, "\n");
        self.push_intrinsic_declarations(ir);
        push_str(ir, "declare ptr @malloc(i64)\n");
        push_str(ir, "declare void @free(ptr)\n\n");
        push_meta_global(ir, &json);
        assert(ir@ =~= start + prelude(self@, stmts));
    }
}

#[verifier::spinoff_prover]
fn push_meta_global(ir: &mut String, json: &String)
    ensures
        final(ir)@ == old(ir)@ + meta_global(json@),
{
    let mut escaped = String::new();
    let bytes = push_c_text(&mut escaped, json);
    assert(escaped@ =~= c_text(json@));
    let ghost start = ir@;
    push_str(ir, "@.rho_meta_str = private unnamed_addr constant [");
    crate::text::push_wide(ir, bytes + 1);
    push_str(ir, " x i8] c\"");
    push_str(ir, escaped.as_str());
    push_str(ir, "\\00");
    push_str(ir, "\", align 1\n\n");
    assert(ir@ =~= start + meta_global(json@));
}


/// The names a list of buffers holds.
pub open spec fn heap_of(v: Seq<String>) -> Seq<Seq<char>> {
    v.map_values(|h: String| h@)
}

/// A pointer `p` for the space `n`.
#[verifier::spinoff_prover]
fn put(map: &mut Vec<(String, String)>, n: &String, p: String)
    ensures
        pair_map(final(map)@) == pair_map(old(map)@).insert(n@, p@),
{
    map.push((n.clone(), p));
    proof {
        assert(map@.drop_last() =~= old(map)@);
    }
}

impl LlvmCodeGen {
    /// The pointer of a space bound at `address`, after its instructions.
    #[verifier::spinoff_prover]
    fn push_binding(ir: &mut String, name: &String, id: &String, address: u64) -> (sym: String)
        ensures
            sym@ == "%"@ + id@ + "_ext"@,
            final(ir)@ == old(ir)@ + "  ; Zero-copy binding for ["@ + name@ + "] at "@ + address_text(address) + "\n"@ + "  "@
                + sym@ + " = inttoptr i64 "@ + decimal(address as nat) + " to ptr\n"@,
    {
        let mut sym = String::new();
        push_str(&mut sym, "%");
        push_str(&mut sym, id.as_str());
        push_str(&mut sym, "_ext");
        push_str(ir, "  ; Zero-copy binding for [");
        push_str(ir, name.as_str());
        push_str(ir, "] at ");
        push_str(ir, "0x");
        crate::dag::push_upper_hex(ir, address);
        push_str(ir, "\n");
        push_str(ir, "  ");
        push_str(ir, sym.as_str());
        push_str(ir, " = inttoptr i64 ");
        push_decimal(ir, address);
        push_str(ir, " to ptr\n");
        assert(ir@ =~= old(ir)@ + "  ; Zero-copy binding for ["@ + name@ + "] at "@ + address_text(address) + "\n"@ + "  "@
            + sym@ + " = inttoptr i64 "@ + decimal(address as nat) + " to ptr\n"@);
        sym
    }

    /// Every space `map` does not place yet, in order: see `placed_from`.
    #[verifier::spinoff_prover]
    fn place_spaces(&self, ir: &mut String, map: &mut Vec<(String, String)>, heap: &mut Vec<String>) -> (r: Result<
        (),
        HarmonyDisruption,
    >)
        ensures
            ({
                let p = placed_from(self@, in_order(self@.shapes.dom()), 0, pair_map(old(map)@), heap_of(old(heap)@), old(ir)@);
                &&& final(ir)@ == p.ir
                &&& pair_map(final(map)@) == p.map
                &&& heap_of(final(heap)@) == p.heap
                &&& match r {
                    Ok(_) => p.res is Ok,
                    Err(d) => p.res == Err::<(), DisruptionV>(disruption_view(d)),
                }
            }),
    {
        let ghost g = self@;
        let names = self.shape_table().names();
        let ghost ns = names_of(names@);
        let ghost whole = placed_from(g, ns, 0, pair_map(map@), heap_of(heap@), ir@);
        let mut k: usize = 0;
        while k < names.len()
            invariant
                k <= names.len(),
                g == self@,
                ns == names_of(names@),
                ns == in_order(g.shapes.dom()),
                forall|x: Seq<char>| #[trigger] ns.contains(x) <==> g.shapes.dom().contains(x),
                whole == placed_from(g, ns, 0, pair_map(old(map)@), heap_of(old(heap)@), old(ir)@),
                whole == placed_from(g, ns, k as int, pair_map(map@), heap_of(heap@), ir@),
            decreases names.len() - k,
        {
            let name = &names[k];
            proof {
                assert(ns[k as int] == name@);
                assert(ns.contains(name@));
            }
            if pair_get(map, name).is_some() {
            } else {
                let id = crate::llvm_mode::sanitize_ident(name.as_str());
                match self.binding_table().get(name) {
                    Some(a) => {
                        let sym = Self::push_binding(ir, name, &id, a);
                        put(map, name, sym);
                    },
                    None => {
                        let shape = match self.shape_table().get(name) {
                            Some(v) => v,
                            None => {
                                proof {
                                    assert(false);
                                }
                                Vec::new()
                            },
                        };
                        match crate::sv::count_cells(&shape) {
                            None => {
                                return Err(self.oversize_error());
                            },
                            Some(c) => {
                                let mut label = id.clone();
                                push_str(&mut label, "_buf");
                                let sym = self.emit_scratch(ir, &label, c, heap);
                                put(map, name, sym);
                            },
                        }
                    },
                }
            }
            k = k + 1;
        }
        Ok(())
    }
}


/// The pointers an entrypoint with an input and an output starts from.
#[verifier::spinoff_prover]
fn in_out_pairs(i: &str, o: &str) -> (r: Vec<(String, String)>)
    ensures
        pair_map(r@) == in_out(i@, o@),
{
    let mut r: Vec<(String, String)> = Vec::new();
    let mut input = String::new();
    push_str(&mut input, "INPUT");
    let mut output = String::new();
    push_str(&mut output, "OUTPUT");
    let mut a = String::new();
    push_str(&mut a, i);
    let mut b = String::new();
    push_str(&mut b, o);
    assert(a@ =~= i@ && b@ =~= o@);
    put(&mut r, &input, a);
    put(&mut r, &output, b);
    assert(pair_map(Seq::<(String, String)>::empty()) =~= Map::<Seq<char>, Seq<char>>::empty());
    assert(input@ =~= "INPUT"@ && output@ =~= "OUTPUT"@);
    r
}

impl LlvmCodeGen {
    /// A body: see `body_spec`.
    #[verifier::spinoff_prover]
    fn emit_body(
        &mut self,
        block: &ToposBlock,
        ir: &mut String,
        map: Vec<(String, String)>,
        entry: &str,
        heap: Vec<String>,
        bound: &str,
    ) -> (r: Result<(), HarmonyDisruption>)
        requires
            body_spec(
                old(self)@,
                statements_view(block.statements@),
                block.lines@,
                pair_map(map@),
                entry@,
                heap_of(heap@),
                bound@,
                old(ir)@,
            ).peak <= usize::MAX,
        ensures
            final(self)@ == old(self)@,
            ({
                let b = body_spec(
                    old(self)@,
                    statements_view(block.statements@),
                    block.lines@,
                    pair_map(map@),
                    entry@,
                    heap_of(heap@),
                    bound@,
                    old(ir)@,
                );
                match r {
                    Ok(_) => b.res == Ok::<Seq<char>, DisruptionV>(final(ir)@),
                    Err(d) => b.res == Err::<Seq<char>, DisruptionV>(disruption_view(d)),
                }
            }),
    {
        let mut map = map;
        let mut heap = heap;
        match self.place_spaces(ir, &mut map, &mut heap) {
            Err(d) => return Err(d),
            Ok(_) => {},
        }
        let mut bufs = Buffers::assemble(map, heap, bound);
        let mut counter: usize = 0;
        let mut start = String::new();
        push_str(&mut start, entry);
        assert(start@ =~= entry@);
        match self.emit_flows(block, ir, &mut bufs, &start, &mut counter) {
            Err(d) => return Err(d),
            Ok(_) => {},
        }
        let ghost before = ir@;
        let hs = bufs.heap_buffers();
        let mut k: usize = 0;
        assert(heap_of(hs@).take(0) =~= Seq::<Seq<char>>::empty());
        while k < hs.len()
            invariant
                k <= hs.len(),
                ir@ == before + frees(heap_of(hs@).take(k as int)),
            decreases hs.len() - k,
        {
            push_str(ir, "  call void @free(ptr ");
            push_str(ir, hs[k].as_str());
            push_str(ir, ")\n");
            proof {
                assert(heap_of(hs@).take(k + 1).drop_last() =~= heap_of(hs@).take(k as int));
                assert(heap_of(hs@).take(k + 1).last() == hs@[k as int]@);
            }
            k = k + 1;
        }
        assert(heap_of(hs@).take(hs.len() as int) =~= heap_of(hs@));
        push_str(ir, "  ret void\n");
        Ok(())
    }

    /// The input of the static entrypoint: see `static_input`.
    #[verifier::spinoff_prover]
    fn static_in(&self, ir: &mut String, heap: &mut Vec<String>) -> (sym: String)
        requires
            old(heap)@.len() == 0,
        ensures
            ({
                let t = static_input(self@, old(ir)@);
                &&& sym@ == t.0
                &&& final(ir)@ == t.1
                &&& heap_of(final(heap)@) == t.2
            }),
    {
        let mut input = String::new();
        push_str(&mut input, "INPUT");
        assert(input@ =~= "INPUT"@);
        assert(heap_of(heap@) =~= Seq::<Seq<char>>::empty());
        match self.binding_table().get(&input) {
            Some(a) => {
                let mut id = String::new();
                push_str(&mut id, "INPUT");
                let sym = Self::push_binding(ir, &input, &id, a);
                proof {
                    reveal_strlit("%");
                    reveal_strlit("INPUT");
                    reveal_strlit("_ext");
                    reveal_strlit("%INPUT_ext");
                    reveal_strlit("  ");
                    reveal_strlit(" = inttoptr i64 ");
                    reveal_strlit("  %INPUT_ext = inttoptr i64 ");
                }
                assert(sym@ =~= "%INPUT_ext"@);
                assert(ir@ =~= static_input(self@, old(ir)@).1);
                sym
            },
            None => {
                let mut label = String::new();
                push_str(&mut label, "INPUT_local");
                assert(label@ =~= "INPUT_local"@);
                self.emit_scratch(ir, &label, self.element_count(), heap)
            },
        }
    }

    /// The output of the static entrypoint: see `static_output`.
    #[verifier::spinoff_prover]
    fn static_out(&self, ir: &mut String, input: &String, heap: &mut Vec<String>) -> (sym: String)
        ensures
            ({
                let t = static_output(self@, input@, old(ir)@, heap_of(old(heap)@));
                &&& sym@ == t.0
                &&& final(ir)@ == t.1
                &&& heap_of(final(heap)@) == t.2
            }),
    {
        let mut output = String::new();
        push_str(&mut output, "OUTPUT");
        assert(output@ =~= "OUTPUT"@);
        let mut inp = String::new();
        push_str(&mut inp, "INPUT");
        assert(inp@ =~= "INPUT"@);
        match self.binding_table().get(&output) {
            Some(a) => {
                let mut id = String::new();
                push_str(&mut id, "OUTPUT");
                let sym = Self::push_binding(ir, &output, &id, a);
                proof {
                    reveal_strlit("%");
                    reveal_strlit("OUTPUT");
                    reveal_strlit("_ext");
                    reveal_strlit("%OUTPUT_ext");
                    reveal_strlit("  ");
                    reveal_strlit(" = inttoptr i64 ");
                    reveal_strlit("  %OUTPUT_ext = inttoptr i64 ");
                }
                assert(sym@ =~= "%OUTPUT_ext"@);
                assert(ir@ =~= static_output(self@, input@, old(ir)@, heap_of(old(heap)@)).1);
                sym
            },
            None => match self.binding_table().get(&inp) {
                Some(_) => input.clone(),
                None => {
                    let mut label = String::new();
                    push_str(&mut label, "OUTPUT_local");
                    assert(label@ =~= "OUTPUT_local"@);
                    self.emit_scratch(ir, &label, self.element_count(), heap)
                },
            },
        }
    }
}


/// The spaces a caller must supply that no address binds: see
/// `unbound_from`.
#[verifier::spinoff_prover]
fn unbound_names(g: &LlvmCodeGen, block: &ToposBlock, written: &Vec<String>) -> (r: Vec<String>)
    requires
        forall|n: Seq<char>| #[trigger] names_of(written@).contains(n) <==> writes(statements_view(block.statements@), n),
    ensures
        names_of(r@) == unbound_from(g@, statements_view(block.statements@), 0),
{
    let ghost sv = statements_view(block.statements@);
    let mut out: Vec<String> = Vec::new();
    let mut i: usize = 0;
    assert(names_of(out@) + unbound_from(g@, sv, 0) =~= unbound_from(g@, sv, 0));
    while i < block.statements.len()
        invariant
            i <= block.statements.len(),
            sv == statements_view(block.statements@),
            forall|n: Seq<char>| #[trigger] names_of(written@).contains(n) <==> writes(sv, n),
            unbound_from(g@, sv, 0) == names_of(out@) + unbound_from(g@, sv, i as int),
        decreases block.statements.len() - i,
    {
        assert(sv[i as int] == statement_view(block.statements@[i as int]));
        let name: Option<&String> = match &block.statements[i] {
            Statement::SpaceDef(d) => Some(&d.name),
            Statement::ExtBind(b) => Some(&b.space.name),
            _ => None,
        };
        match name {
            Some(n) => {
                if !crate::sv::contains_name(written, n) && g.binding_table().get(n).is_none() {
                    let ghost before = names_of(out@);
                    out.push(n.clone());
                    proof {
                        assert(names_of(out@) =~= before.push(n@));
                        assert(names_of(out@) + unbound_from(g@, sv, i + 1) =~= before + (seq![n@] + unbound_from(
                            g@,
                            sv,
                            i + 1,
                        )));
                    }
                }
            },
            None => {},
        }
        i = i + 1;
    }
    assert(names_of(out@) + unbound_from(g@, sv, block.statements.len() as int) =~= names_of(out@));
    out
}

impl LlvmCodeGen {
    /// `rho_kernel_exec`: see `static_entry`.
    #[verifier::spinoff_prover]
    fn emit_static_entry(&mut self, block: &ToposBlock, ir: &mut String, written: &Vec<String>) -> (r: Result<
        (),
        HarmonyDisruption,
    >)
        requires
            forall|n: Seq<char>| #[trigger] names_of(written@).contains(n) <==> writes(statements_view(block.statements@), n),
            static_entry(old(self)@, statements_view(block.statements@), block.lines@, old(ir)@).peak <= usize::MAX,
        ensures
            final(self)@ == old(self)@,
            ({
                let b = static_entry(old(self)@, statements_view(block.statements@), block.lines@, old(ir)@);
                match r {
                    Ok(_) => b.res == Ok::<Seq<char>, DisruptionV>(final(ir)@),
                    Err(d) => b.res == Err::<Seq<char>, DisruptionV>(disruption_view(d)),
                }
            }),
    {
        let ghost g = self@;
        push_str(ir, "define void @rho_kernel_exec() #0 {\n");
        push_str(ir, "entry:\n");
        let ghost head = ir@;
        let unbound = unbound_names(self, block, written);
        if unbound.len() == 0 && !self.binding_table().is_empty() {
            let mut heap: Vec<String> = Vec::new();
            let input = self.static_in(ir, &mut heap);
            let output = self.static_out(ir, &input, &mut heap);
            let map = in_out_pairs(input.as_str(), output.as_str());
            let mut cells = String::new();
            push_decimal(&mut cells, self.element_count() as u64);
            match self.emit_body(block, ir, map, "entry", heap, cells.as_str()) {
                Err(d) => return Err(d),
                Ok(_) => {},
            }
            push_str(ir, "}\n\n");
            Ok(())
        } else {
            push_str(ir, "  ; Not every space this kernel reads has an & binding:\n");
            let ghost base = ir@;
            let ghost un = names_of(unbound@);
            let mut k: usize = 0;
            assert(un.take(0) =~= Seq::<Seq<char>>::empty());
            while k < unbound.len()
                invariant
                    k <= unbound.len(),
                    un == names_of(unbound@),
                    ir@ == base + unbound_lines(un.take(k as int)),
                decreases unbound.len() - k,
            {
                push_str(ir, "  ;   [");
                push_str(ir, unbound[k].as_str());
                push_str(ir, "] is unbound\n");
                proof {
                    assert(un.take(k + 1).drop_last() =~= un.take(k as int));
                    assert(un.take(k + 1).last() == unbound@[k as int]@);
                }
                k = k + 1;
            }
            assert(un.take(unbound.len() as int) =~= un);
            push_str(ir, "  ; Use rho_kernel_exec_with_args, or compile with --bind NAME=0x...\n");
            push_str(ir, "  ret void\n");
            push_str(ir, "}\n\n");
            Ok(())
        }
    }

    /// `rho_kernel_exec_with_args`: see `args_entry`.
    #[verifier::spinoff_prover]
    fn emit_args_entry(&mut self, block: &ToposBlock, ir: &mut String) -> (r: Result<(), HarmonyDisruption>)
        requires
            args_entry(old(self)@, statements_view(block.statements@), block.lines@, old(ir)@).peak <= usize::MAX,
        ensures
            final(self)@ == old(self)@,
            ({
                let b = args_entry(old(self)@, statements_view(block.statements@), block.lines@, old(ir)@);
                match r {
                    Ok(_) => b.res == Ok::<Seq<char>, DisruptionV>(final(ir)@),
                    Err(d) => b.res == Err::<Seq<char>, DisruptionV>(disruption_view(d)),
                }
            }),
    {
        push_str(ir, "define void @rho_kernel_exec_with_args(ptr %in_ptr, ptr %out_ptr) #0 {\n");
        push_str(ir, "entry:\n");
        push_str(ir, "  ; Null pointer safety check\n");
        push_str(ir, "  %in_null = icmp eq ptr %in_ptr, null\n");
        push_str(ir, "  br i1 %in_null, label %safety_fail, label %exec_start\n\n");
        push_str(ir, "safety_fail:\n");
        push_str(ir, "  ret void\n\n");
        push_str(ir, "exec_start:\n");
        push_str(ir, "  %out_null = icmp eq ptr %out_ptr, null\n");
        push_str(ir, "  %out_effective = select i1 %out_null, ptr %in_ptr, ptr %out_ptr\n");
        let map = in_out_pairs("%in_ptr", "%out_effective");
        let mut cells = String::new();
        push_decimal(&mut cells, self.element_count() as u64);
        let heap: Vec<String> = Vec::new();
        assert(heap_of(heap@) =~= Seq::<Seq<char>>::empty());
        match self.emit_body(block, ir, map, "exec_start", heap, cells.as_str()) {
            Err(d) => return Err(d),
            Ok(_) => {},
        }
        push_str(ir, "}\n\n");
        Ok(())
    }

    /// `rho_kernel_exec_bounded`: see `bounded_entry`.
    #[verifier::spinoff_prover]
    fn emit_bounded_entry(&mut self, block: &ToposBlock, ir: &mut String) -> (r: Result<(), HarmonyDisruption>)
        requires
            bounded_entry(old(self)@, statements_view(block.statements@), block.lines@, old(ir)@).peak <= usize::MAX,
        ensures
            final(self)@ == old(self)@,
            ({
                let b = bounded_entry(old(self)@, statements_view(block.statements@), block.lines@, old(ir)@);
                match r {
                    Ok(_) => b.res == Ok::<Seq<char>, DisruptionV>(final(ir)@),
                    Err(d) => b.res == Err::<Seq<char>, DisruptionV>(disruption_view(d)),
                }
            }),
    {
        push_str(ir, "define void @rho_kernel_exec_bounded(ptr %in_ptr, ptr %out_ptr, i64 %n) #0 {\n");
        push_str(ir, "entry:\n");
        push_str(ir, "  %b_in_null = icmp eq ptr %in_ptr, null\n");
        push_str(ir, "  br i1 %b_in_null, label %bounded_fail, label %bounded_start\n\n");
        push_str(ir, "bounded_fail:\n");
        push_str(ir, "  ret void\n\n");
        push_str(ir, "bounded_start:\n");
        push_str(ir, "  %b_out_null = icmp eq ptr %out_ptr, null\n");
        push_str(ir, "  %b_out_effective = select i1 %b_out_null, ptr %in_ptr, ptr %out_ptr\n");
        push_str(ir, "  %b_short = icmp ult i64 %n, ");
        push_decimal(ir, self.element_count() as u64);
        push_str(ir, "\n");
        push_str(ir, "  %sweep = select i1 %b_short, i64 %n, i64 ");
        push_decimal(ir, self.element_count() as u64);
        push_str(ir, "\n");
        let map = in_out_pairs("%in_ptr", "%b_out_effective");
        let heap: Vec<String> = Vec::new();
        assert(heap_of(heap@) =~= Seq::<Seq<char>>::empty());
        match self.emit_body(block, ir, map, "bounded_start", heap, "%sweep") {
            Err(d) => return Err(d),
            Ok(_) => {},
        }
        push_str(ir, "}\n\n");
        Ok(())
    }
}


/// The spaces flows write, with their pointer and flag, by their views.
pub open spec fn optional_of(v: Seq<(String, String, String)>) -> Seq<(Seq<char>, Seq<char>, Seq<char>)> {
    v.map_values(|t: (String, String, String)| (t.0@, t.1@, t.2@))
}

impl LlvmCodeGen {
    /// Each space's pointer loaded from the array: see `slots_upto`.
    #[verifier::spinoff_prover]
    #[verifier::rlimit(40)]
    fn load_slots(
        &self,
        ir: &mut String,
        written: &Vec<String>,
        Ghost(stmts): Ghost<Seq<StatementV>>,
    ) -> (r: (Vec<(String, String)>, Vec<String>, Vec<(String, String, String)>))
        requires
            forall|n: Seq<char>| #[trigger] names_of(written@).contains(n) <==> writes(stmts, n),
        ensures
            ({
                let names = in_order(self@.shapes.dom());
                let sl = slots_upto(self@, stmts, names, names.len(), old(ir)@);
                &&& final(ir)@ == sl.ir
                &&& pair_map(r.0@) == sl.provided
                &&& names_of(r.1@) == sl.required
                &&& optional_of(r.2@) == sl.optional
            }),
            forall|x: Seq<char>| #[trigger] in_order(self@.shapes.dom()).contains(x) <==> self@.shapes.dom().contains(x),
    {
        let ghost g = self@;
        let ghost start = ir@;
        let names = self.shape_table().names();
        let ghost ns = names_of(names@);
        let mut map: Vec<(String, String)> = Vec::new();
        let mut required: Vec<String> = Vec::new();
        let mut optional: Vec<(String, String, String)> = Vec::new();
        assert(pair_map(map@) =~= Map::<Seq<char>, Seq<char>>::empty());
        assert(names_of(required@) =~= Seq::<Seq<char>>::empty());
        assert(optional_of(optional@) =~= Seq::<(Seq<char>, Seq<char>, Seq<char>)>::empty());
        let mut k: usize = 0;
        while k < names.len()
            invariant
                k <= names.len(),
                g == self@,
                ns == names_of(names@),
                ns == in_order(g.shapes.dom()),
                forall|n: Seq<char>| #[trigger] names_of(written@).contains(n) <==> writes(stmts, n),
                ({
                    let sl = slots_upto(g, stmts, ns, k as nat, start);
                    &&& ir@ == sl.ir
                    &&& pair_map(map@) == sl.provided
                    &&& names_of(required@) == sl.required
                    &&& optional_of(optional@) == sl.optional
                }),
            decreases names.len() - k,
        {
            let name = &names[k];
            assert(ns[k as int] == name@);
            let id = crate::llvm_mode::sanitize_ident(name.as_str());
            let mut slot = String::new();
            push_str(&mut slot, "%");
            push_str(&mut slot, id.as_str());
            push_str(&mut slot, "_slot");
            let mut arg = String::new();
            push_str(&mut arg, "%");
            push_str(&mut arg, id.as_str());
            push_str(&mut arg, "_arg");
            let mut flag = String::new();
            push_str(&mut flag, "%");
            push_str(&mut flag, id.as_str());
            push_str(&mut flag, "_null");
            push_str(ir, "  ; [");
            push_str(ir, name.as_str());
            push_str(ir, "] is spaces[");
            push_decimal(ir, k as u64);
            push_str(ir, "]\n");
            push_str(ir, "  ");
            push_str(ir, slot.as_str());
            push_str(ir, " = getelementptr ptr, ptr %spaces, i64 ");
            push_decimal(ir, k as u64);
            push_str(ir, "\n");
            push_str(ir, "  ");
            push_str(ir, arg.as_str());
            push_str(ir, " = load ptr, ptr ");
            push_str(ir, slot.as_str());
            push_str(ir, "\n");
            push_str(ir, "  ");
            push_str(ir, flag.as_str());
            push_str(ir, " = icmp eq ptr ");
            push_str(ir, arg.as_str());
            push_str(ir, ", null\n");
            let ghost prev_req = names_of(required@);
            let ghost prev_opt = optional_of(optional@);
            if crate::sv::contains_name(written, name) {
                optional.push((name.clone(), arg.clone(), flag));
                proof {
                    assert(optional_of(optional@) =~= prev_opt.push((name@, arg@, flag@)));
                }
            } else {
                required.push(flag);
                proof {
                    assert(names_of(required@) =~= prev_req.push(flag@));
                }
            }
            put(&mut map, name, arg);
            k = k + 1;
        }
        (map, required, optional)
    }

    /// The flags of the spaces only read, or-ed: see `guard`.
    #[verifier::spinoff_prover]
    fn emit_guard(ir: &mut String, required: &Vec<String>)
        ensures
            final(ir)@ == guard(names_of(required@), old(ir)@),
    {
        let ghost flags = names_of(required@);
        if required.len() == 0 {
            push_str(ir, "  br label %spaces_start\n\n");
            return;
        }
        let ghost base = ir@;
        let mut missing = required[0].clone();
        let mut j: usize = 1;
        while j < required.len()
            invariant
                1 <= j <= required.len(),
                flags == names_of(required@),
                (missing@, ir@) == missing_upto(flags, j as nat, base),
            decreases required.len() - j,
        {
            let mut next = String::new();
            push_str(&mut next, "%missing");
            push_decimal(&mut next, (j - 1) as u64);
            push_str(ir, "  ");
            push_str(ir, next.as_str());
            push_str(ir, " = or i1 ");
            push_str(ir, missing.as_str());
            push_str(ir, ", ");
            push_str(ir, required[j].as_str());
            push_str(ir, "\n");
            proof {
                assert(flags[j as int] == required@[j as int]@);
            }
            missing = next;
            j = j + 1;
        }
        push_str(ir, "  br i1 ");
        push_str(ir, missing.as_str());
        push_str(ir, ", label %spaces_fail, label %spaces_start\n\n");
    }
}


proof fn lemma_owned_stays_failed(
    g: GenV,
    opt: Seq<(Seq<char>, Seq<char>, Seq<char>)>,
    k: nat,
    m: nat,
    provided: Map<Seq<char>, Seq<char>>,
    ir: Seq<char>,
)
    requires
        k <= m,
        owned_upto(g, opt, k, provided, ir).0 is Err,
    ensures
        owned_upto(g, opt, m, provided, ir).0 == owned_upto(g, opt, k, provided, ir).0,
    decreases m - k,
{
    if k < m {
        lemma_owned_stays_failed(g, opt, k, (m - 1) as nat, provided, ir);
    }
}

impl LlvmCodeGen {
    /// Scratch for each space a flow writes: see `owned_upto`.
    #[verifier::spinoff_prover]
    #[verifier::rlimit(40)]
    fn own_spaces(
        &self,
        ir: &mut String,
        optional: &Vec<(String, String, String)>,
        map: &mut Vec<(String, String)>,
        heap: &mut Vec<String>,
    ) -> (r: Result<(), HarmonyDisruption>)
        requires
            old(heap)@.len() == 0,
            forall|j: int| 0 <= j < optional@.len() ==> self@.shapes.contains_key(#[trigger] optional@[j].0@),
        ensures
            ({
                let o = owned_upto(self@, optional_of(optional@), optional@.len() as nat, pair_map(old(map)@), old(ir)@);
                &&& match r {
                    Ok(_) => o.0 is Ok,
                    Err(d) => o.0 == Err::<(), DisruptionV>(disruption_view(d)),
                }
                &&& r is Ok ==> final(ir)@ == o.3 && pair_map(final(map)@) == o.1 && heap_of(final(heap)@) == o.2
            }),
    {
        let ghost g = self@;
        let ghost opt = optional_of(optional@);
        let ghost m0 = pair_map(map@);
        let ghost i0 = ir@;
        assert(heap_of(heap@) =~= Seq::<Seq<char>>::empty());
        let mut j: usize = 0;
        while j < optional.len()
            invariant
                j <= optional.len(),
                g == self@,
                opt == optional_of(optional@),
                forall|j: int| 0 <= j < optional@.len() ==> g.shapes.contains_key(#[trigger] optional@[j].0@),
                m0 == pair_map(old(map)@),
                i0 == old(ir)@,
                ({
                    let o = owned_upto(g, opt, j as nat, m0, i0);
                    &&& o.0 is Ok
                    &&& ir@ == o.3
                    &&& pair_map(map@) == o.1
                    &&& heap_of(heap@) == o.2
                }),
            decreases optional.len() - j,
        {
            let entry = &optional[j];
            proof {
                assert(opt[j as int] == (entry.0@, entry.1@, entry.2@));
            }
            let id = crate::llvm_mode::sanitize_ident(entry.0.as_str());
            let shape = match self.shape_table().get(&entry.0) {
                Some(v) => v,
                None => {
                    proof {
                        assert(false);
                    }
                    Vec::new()
                },
            };
            match crate::sv::count_cells(&shape) {
                None => {
                    proof {
                        assert(owned_upto(g, opt, (j + 1) as nat, m0, i0).0 == Err::<(), DisruptionV>(oversize(g.line)));
                        lemma_owned_stays_failed(g, opt, (j + 1) as nat, optional@.len() as nat, m0, i0);
                    }
                    return Err(self.oversize_error());
                },
                Some(c) => {
                    let mut label = id.clone();
                    push_str(&mut label, "_own");
                    let own = self.emit_scratch(ir, &label, c, heap);
                    let mut eff = String::new();
                    push_str(&mut eff, "%");
                    push_str(&mut eff, id.as_str());
                    push_str(&mut eff, "_eff");
                    push_str(ir, "  ");
                    push_str(ir, eff.as_str());
                    push_str(ir, " = select i1 ");
                    push_str(ir, entry.2.as_str());
                    push_str(ir, ", ptr ");
                    push_str(ir, own.as_str());
                    push_str(ir, ", ptr ");
                    push_str(ir, entry.1.as_str());
                    push_str(ir, "\n");
                    put(map, &entry.0, eff);
                },
            }
            j = j + 1;
        }
        Ok(())
    }
}


proof fn lemma_optional_named(g: GenV, stmts: Seq<StatementV>, names: Seq<Seq<char>>, k: nat, ir: Seq<char>)
    requires
        k <= names.len(),
    ensures
        forall|j: int|
            0 <= j < slots_upto(g, stmts, names, k, ir).optional.len() ==> names.contains(
                #[trigger] slots_upto(g, stmts, names, k, ir).optional[j].0,
            ),
    decreases k,
{
    if k > 0 {
        lemma_optional_named(g, stmts, names, (k - 1) as nat, ir);
        let prev = slots_upto(g, stmts, names, (k - 1) as nat, ir);
        let cur = slots_upto(g, stmts, names, k, ir);
        assert forall|j: int| 0 <= j < cur.optional.len() implies names.contains(#[trigger] cur.optional[j].0) by {
            if j < prev.optional.len() {
                assert(cur.optional[j] == prev.optional[j]);
            } else {
                assert(cur.optional[j].0 == names[k - 1]);
            }
        }
    }
}

impl LlvmCodeGen {
    /// `rho_kernel_exec_spaces`: see `spaces_entry`.
    #[verifier::spinoff_prover]
    #[verifier::rlimit(40)]
    fn emit_spaces_entry(&mut self, block: &ToposBlock, ir: &mut String, written: &Vec<String>) -> (r: Result<
        (),
        HarmonyDisruption,
    >)
        requires
            forall|n: Seq<char>| #[trigger] names_of(written@).contains(n) <==> writes(statements_view(block.statements@), n),
            spaces_entry(old(self)@, statements_view(block.statements@), block.lines@, old(ir)@).peak <= usize::MAX,
        ensures
            final(self)@ == old(self)@,
            ({
                let b = spaces_entry(old(self)@, statements_view(block.statements@), block.lines@, old(ir)@);
                match r {
                    Ok(_) => b.res == Ok::<Seq<char>, DisruptionV>(final(ir)@),
                    Err(d) => b.res == Err::<Seq<char>, DisruptionV>(disruption_view(d)),
                }
            }),
    {
        let ghost g = self@;
        let ghost sv = statements_view(block.statements@);
        push_str(ir, "define void @rho_kernel_exec_spaces(ptr %spaces) #0 {\n");
        push_str(ir, "entry:\n");
        push_str(ir, "  %spaces_null = icmp eq ptr %spaces, null\n");
        push_str(ir, "  br i1 %spaces_null, label %spaces_fail, label %spaces_load\n\n");
        push_str(ir, "spaces_fail:\n");
        push_str(ir, "  ret void\n\n");
        push_str(ir, "spaces_load:\n");
        let ghost head = ir@;
        let (mut map, required, optional) = self.load_slots(ir, written, Ghost(sv));
        Self::emit_guard(ir, &required);
        push_str(ir, "spaces_start:\n");
        let mut heap: Vec<String> = Vec::new();
        proof {
            let names = in_order(g.shapes.dom());
            lemma_optional_named(g, sv, names, names.len(), head);
            let sl = slots_upto(g, sv, names, names.len(), head);
            assert forall|j: int| 0 <= j < optional@.len() implies g.shapes.contains_key(#[trigger] optional@[j].0@) by {
                assert(optional_of(optional@)[j] == sl.optional[j]);
                assert(names.contains(sl.optional[j].0));
            }
        }
        match self.own_spaces(ir, &optional, &mut map, &mut heap) {
            Err(d) => return Err(d),
            Ok(_) => {},
        }
        let mut cells = String::new();
        push_decimal(&mut cells, self.element_count() as u64);
        match self.emit_body(block, ir, map, "spaces_start", heap, cells.as_str()) {
            Err(d) => return Err(d),
            Ok(_) => {},
        }
        push_str(ir, "}\n\n");
        Ok(())
    }
}


impl LlvmCodeGen {
    #[verifier::spinoff_prover]
    fn push_epilogue(&self, ir: &mut String)
        ensures
            final(ir)@ == old(ir)@ + epilogue(self@),
    {
        push_str(ir, "define ptr @rho_kernel_metadata() #0 {\n");
        push_str(ir, "entry:\n");
        push_str(ir, "  ret ptr @.rho_meta_str\n");
        push_str(ir, "}\n\n");
        push_str(ir, "define i64 @rho_kernel_element_count() #0 {\n");
        push_str(ir, "entry:\n");
        push_str(ir, "  ret i64 ");
        push_decimal(ir, self.element_count() as u64);
        push_str(ir, "\n");
        push_str(ir, "}\n\n");
        push_str(ir, "attributes #0 = { nounwind uwtable }\n");
    }

    /// The complete LLVM module for a program: the generator first reads the
    /// program's shapes, addresses and grid (see `configured`), then writes
    /// the declarations, the metadata, and the four entrypoints
    /// `rho_kernel_exec`, `rho_kernel_exec_with_args`,
    /// `rho_kernel_exec_bounded` and `rho_kernel_exec_spaces` around the
    /// lowered flows, and the exports `rho_kernel_metadata` and
    /// `rho_kernel_element_count`. See `module_spec`.
    #[verifier::spinoff_prover]
    #[verifier::rlimit(40)]
    pub fn generate_llvm_ir(&mut self, block: &ToposBlock) -> (r: Result<String, HarmonyDisruption>)
        requires
            module_spec(old(self)@, statements_view(block.statements@), block.lines@).peak <= usize::MAX,
        ensures
            final(self)@ == configured(old(self)@, statements_view(block.statements@)),
            match r {
                Ok(ir) => module_spec(old(self)@, statements_view(block.statements@), block.lines@).res == Ok::<
                    Seq<char>,
                    DisruptionV,
                >(ir@),
                Err(e) => module_spec(old(self)@, statements_view(block.statements@), block.lines@).res == Err::<
                    Seq<char>,
                    DisruptionV,
                >(disruption_view(e)),
            },
    {
        let ghost sv = statements_view(block.statements@);
        let ghost lines = block.lines@;
        if !self.configure_for(block) {
            let mut m = String::new();
            push_str(&mut m, "a shape whose cells overflow a machine word");
            return Err(HarmonyDisruption::LoweringErr { detail: m, line: 0 });
        }
        let ghost c = self@;
        let written = written_names(block);
        let mut ir = String::new();
        self.push_prelude(&mut ir, &written, Ghost(sv));
        let ghost a = static_entry(c, sv, lines, ir@);
        match self.emit_static_entry(block, &mut ir, &written) {
            Err(d) => return Err(d),
            Ok(_) => {},
        }
        let ghost b = then(a, |t: Seq<char>| args_entry(c, sv, lines, t));
        match self.emit_args_entry(block, &mut ir) {
            Err(d) => return Err(d),
            Ok(_) => {},
        }
        let ghost cc = then(b, |t: Seq<char>| bounded_entry(c, sv, lines, t));
        match self.emit_bounded_entry(block, &mut ir) {
            Err(d) => return Err(d),
            Ok(_) => {},
        }
        let ghost d = then(cc, |t: Seq<char>| spaces_entry(c, sv, lines, t));
        match self.emit_spaces_entry(block, &mut ir, &written) {
            Err(e) => return Err(e),
            Ok(_) => {},
        }
        self.push_epilogue(&mut ir);
        Ok(ir)
    }
}

} // verus!
