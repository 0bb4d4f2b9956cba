//! One cell of a flow as LLVM IR: the instructions that read the spaces a
//! flow's expression names, at the cell a sweep is on, and compute its value,
//! a lane at a time or a vector of lanes at a time.
//!
//! A literal and 𝜏 are written by their bits, which the caller supplies for
//! each literal text at the kernel's precision (a single-precision kernel
//! holds the value rounded to single precision).

use vstd::prelude::*;
use crate::ast::{
    default_axis_of, expr_view, fits, geometry_of, line_at, shape_of_expr, stride, whole_exponent_of, BinaryOpKind, BuiltinOp, Expr, ExprV, FoldOp, Statement, StatementV, TargetV, FlowTarget,
    ShapeTable, ShiftDir, target_view, statements_view, statement_view, ToposBlock,
};
use crate::error::{disruption_view, DisruptionV, HarmonyDisruption};
use crate::layout::{lifted, lifted_spec};
use crate::llvm_mode::{element_type, lanes_of, suffix_of, vector_type, Mode, Sweep};
use crate::numeric::Precision;
use crate::sv::{hex_digits, NumberBits};
use crate::kernel::AddressTable;
use crate::symbolic::glyphs;
use crate::text::{chars_of, decimal, name_before, push_decimal, push_str};

verus! {

// ---------------------------------------------------------------- buffers

/// A list of `(name, value)` entries as a map: the last entry for a name
/// wins.
pub open spec fn pair_map(s: Seq<(String, String)>) -> Map<Seq<char>, Seq<char>>
    decreases s.len(),
{
    if s.len() == 0 {
        Map::empty()
    } else {
        pair_map(s.drop_last()).insert(s.last().0@, s.last().1@)
    }
}

proof fn lemma_pair_last(s: Seq<(String, String)>, k: int, key: Seq<char>)
    requires
        0 <= k < s.len(),
        s[k].0@ == key,
        forall|j: int| k < j < s.len() ==> s[j].0@ != key,
    ensures
        pair_map(s).contains_key(key),
        pair_map(s)[key] == s[k].1@,
    decreases s.len(),
{
    if k < s.len() - 1 {
        lemma_pair_last(s.drop_last(), k, key);
    }
}

proof fn lemma_pair_absent(s: Seq<(String, String)>, key: Seq<char>)
    requires
        forall|j: int| 0 <= j < s.len() ==> s[j].0@ != key,
    ensures
        !pair_map(s).contains_key(key),
    decreases s.len(),
{
    if s.len() > 0 {
        lemma_pair_absent(s.drop_last(), key);
    }
}

pub(crate) fn pair_get(entries: &Vec<(String, String)>, key: &String) -> (r: Option<String>)
    ensures
        match r {
            Some(v) => pair_map(entries@).contains_key(key@) && pair_map(entries@)[key@] == v@,
            None => !pair_map(entries@).contains_key(key@),
        },
{
    let mut k: usize = entries.len();
    while k > 0
        invariant
            k <= entries.len(),
            forall|j: int| k <= j < entries.len() ==> entries@[j].0@ != key@,
        decreases k,
    {
        if entries[k - 1].0 == *key {
            proof {
                lemma_pair_last(entries@, k - 1, key@);
            }
            return Some(entries[k - 1].1.clone());
        }
        k = k - 1;
    }
    proof {
        lemma_pair_absent(entries@, key@);
    }
    None
}

/// Where a body's spaces live: a pointer for each space, a buffer for each
/// fold computed before the sweep (found by the fold as written), and the
/// cells the body sweeps, a literal or an i64 symbol.
pub struct Buffers {
    map: Vec<(String, String)>,
    folds: Vec<(String, String)>,
    heap: Vec<String>,
    bound: String,
}

pub struct BuffersV {
    pub map: Map<Seq<char>, Seq<char>>,
    pub folds: Map<Seq<char>, Seq<char>>,
    /// The kernel's own heap buffers, freed when the body returns.
    pub heap: Seq<Seq<char>>,
    pub bound: Seq<char>,
}

impl View for Buffers {
    type V = BuffersV;

    closed spec fn view(&self) -> BuffersV {
        BuffersV {
            map: pair_map(self.map@),
            folds: pair_map(self.folds@),
            heap: self.heap@.map_values(|h: String| h@),
            bound: self.bound@,
        }
    }
}

impl Buffers {
    /// No space placed yet, sweeping `bound` cells.
    pub fn new(bound: &str) -> (r: Buffers)
        ensures
            r@.map == Map::<Seq<char>, Seq<char>>::empty(),
            r@.folds == Map::<Seq<char>, Seq<char>>::empty(),
            r@.heap == Seq::<Seq<char>>::empty(),
            r@.bound == bound@,
    {
        let mut b = String::new();
        push_str(&mut b, bound);
        assert(b@ =~= bound@);
        let r = Buffers { map: Vec::new(), folds: Vec::new(), heap: Vec::new(), bound: b };
        assert(r@.heap =~= Seq::<Seq<char>>::empty());
        r
    }

    /// The space `name` is at the pointer `ptr`.
    pub fn place(&mut self, name: &str, ptr: &str)
        ensures
            final(self)@ == (BuffersV { map: old(self)@.map.insert(name@, ptr@), ..old(self)@ }),
    {
        let mut n = String::new();
        push_str(&mut n, name);
        let mut p = String::new();
        push_str(&mut p, ptr);
        assert(n@ =~= name@ && p@ =~= ptr@);
        self.map.push((n, p));
        proof {
            assert(self.map@.drop_last() =~= old(self).map@);
        }
    }

    /// The spaces at the pointers `map`, the kernel's heap buffers `heap`,
    /// no fold computed yet, sweeping `bound` cells.
    pub(crate) fn assemble(map: Vec<(String, String)>, heap: Vec<String>, bound: &str) -> (r: Buffers)
        ensures
            r@ == (BuffersV {
                map: pair_map(map@),
                folds: Map::empty(),
                heap: heap@.map_values(|h: String| h@),
                bound: bound@,
            }),
    {
        let mut b = String::new();
        push_str(&mut b, bound);
        assert(b@ =~= bound@);
        let r = Buffers { map, folds: Vec::new(), heap, bound: b };
        assert(pair_map(r.folds@) =~= Map::<Seq<char>, Seq<char>>::empty());
        r
    }

    /// The kernel's heap buffers.
    pub(crate) fn heap_buffers(&self) -> (r: &Vec<String>)
        ensures
            r@.map_values(|h: String| h@) == self@.heap,
    {
        &self.heap
    }

    /// The fold `fold` was computed into the buffer at `ptr`.
    pub fn place_fold(&mut self, fold: &Expr, ptr: &str)
        ensures
            final(self)@ == (BuffersV { folds: old(self)@.folds.insert(glyphs(fold@), ptr@), ..old(self)@ }),
    {
        let key = crate::symbolic::expr_glyphs(fold);
        let mut p = String::new();
        push_str(&mut p, ptr);
        assert(p@ =~= ptr@);
        self.folds.push((key, p));
        proof {
            assert(self.folds@.drop_last() =~= old(self).folds@);
        }
    }
}

// ---------------------------------------------------------------- the generator

/// What lowering one flow's expression depends on: the shapes of the
/// spaces, the bits of 𝜏 and of each literal, the precision, the cells of
/// the grid, and the source line of the flow.
pub struct LlvmCodeGen {
    module_name: String,
    space_shapes: ShapeTable,
    /// The bits of the threshold 𝜏.
    tau: u64,
    /// Emit vector loops for the constant-length entrypoints.
    simd: bool,
    precision: Precision,
    numbers: NumberBits,
    elements: usize,
    current_line: usize,
    /// Spaces read at a fixed address: `&[0x...]` in the program, or bound
    /// by the caller.
    bindings: AddressTable,
    /// Addresses the caller binds, overriding those the program writes.
    overrides: AddressTable,
    /// What the solver proved, shipped in the kernel's metadata.
    contract: Option<String>,
}

pub struct GenV {
    pub module_name: Seq<char>,
    pub simd: bool,
    pub shapes: Map<Seq<char>, Seq<usize>>,
    pub tau: u64,
    pub precision: Precision,
    pub numbers: Map<Seq<char>, u64>,
    pub elements: usize,
    pub line: usize,
    pub bindings: Map<Seq<char>, u64>,
    pub overrides: Map<Seq<char>, u64>,
    pub contract: Option<Seq<char>>,
}

impl View for LlvmCodeGen {
    type V = GenV;

    closed spec fn view(&self) -> GenV {
        GenV {
            module_name: self.module_name@,
            simd: self.simd,
            shapes: self.space_shapes@,
            tau: self.tau,
            precision: self.precision,
            numbers: self.numbers@,
            elements: self.elements,
            line: self.current_line,
            bindings: self.bindings@,
            overrides: self.overrides@,
            contract: match &self.contract {
                Some(c) => Some(c@),
                None => None,
            },
        }
    }
}

impl LlvmCodeGen {
    pub fn new(module_name: &str) -> (r: LlvmCodeGen)
        ensures
            r@.module_name == module_name@,
            r@.shapes == Map::<Seq<char>, Seq<usize>>::empty(),
            r@.tau == 0,
            r@.precision == Precision::F64,
            r@.numbers == Map::<Seq<char>, u64>::empty(),
            r@.elements == 0,
            r@.line == 0,
            r@.simd,
            r@.bindings == Map::<Seq<char>, u64>::empty(),
            r@.overrides == Map::<Seq<char>, u64>::empty(),
            r@.contract is None,
    {
        let mut name = String::new();
        push_str(&mut name, module_name);
        assert(name@ =~= module_name@);
        LlvmCodeGen {
            module_name: name,
            space_shapes: ShapeTable::new(),
            tau: 0,
            simd: true,
            precision: Precision::F64,
            numbers: NumberBits::new(),
            elements: 0,
            current_line: 0,
            bindings: AddressTable::new(),
            overrides: AddressTable::new(),
            contract: None,
        }
    }

    /// Bind the threshold symbol 𝜏 to the value with these bits.
    pub fn with_tau(self, tau: u64) -> (r: LlvmCodeGen)
        ensures
            r@ == (GenV { tau, ..self@ }),
    {
        LlvmCodeGen { tau, ..self }
    }

    /// Compute at the given width.
    pub fn with_precision(self, precision: Precision) -> (r: LlvmCodeGen)
        ensures
            r@ == (GenV { precision, ..self@ }),
    {
        LlvmCodeGen { precision, ..self }
    }

    /// Record what the solver proved, so it ships with the kernel.
    pub fn with_contract(self, contract_json: String) -> (r: LlvmCodeGen)
        ensures
            r@ == (GenV { contract: Some(contract_json@), ..self@ }),
    {
        LlvmCodeGen { contract: Some(contract_json), ..self }
    }

    /// Bind a space to a concrete address, overriding any `&[0x...]` the
    /// program writes.
    pub fn bind(self, name: &str, address: u64) -> (r: LlvmCodeGen)
        ensures
            r@ == (GenV { overrides: self@.overrides.insert(name@, address), ..self@ }),
    {
        let mut next = self;
        next.overrides.insert(name, address);
        next
    }

    /// Turn vector lowering off and emit only scalar loops.
    pub fn without_simd(self) -> (r: LlvmCodeGen)
        ensures
            r@ == (GenV { simd: false, ..self@ }),
    {
        LlvmCodeGen { simd: false, ..self }
    }

    /// The bits of each literal, at this generator's precision.
    pub fn with_numbers(self, numbers: NumberBits) -> (r: LlvmCodeGen)
        ensures
            r@ == (GenV { numbers: numbers@, ..self@ }),
    {
        LlvmCodeGen { numbers, ..self }
    }

    /// Give the space `name` the shape `dims`.
    pub fn set_shape(&mut self, name: &String, dims: &[usize])
        ensures
            final(self)@ == (GenV { shapes: old(self)@.shapes.insert(name@, dims@), ..old(self)@ }),
    {
        self.space_shapes.insert(name, dims);
    }

    /// Sweep `n` cells per flow.
    pub fn set_elements(&mut self, n: usize)
        ensures
            final(self)@ == (GenV { elements: n, ..old(self)@ }),
    {
        self.elements = n;
    }

    /// Lower the flow written at `line`.
    pub fn set_line(&mut self, line: usize)
        ensures
            final(self)@ == (GenV { line, ..old(self)@ }),
    {
        self.current_line = line;
    }

    pub(crate) fn shape_table(&self) -> (r: &ShapeTable)
        ensures
            r@ == self@.shapes,
    {
        &self.space_shapes
    }

    pub(crate) fn binding_table(&self) -> (r: &AddressTable)
        ensures
            r@ == self@.bindings,
    {
        &self.bindings
    }

    pub(crate) fn override_table(&self) -> (r: &AddressTable)
        ensures
            r@ == self@.overrides,
    {
        &self.overrides
    }

    pub(crate) fn contract_json(&self) -> (r: Option<&String>)
        ensures
            match r {
                Some(c) => self@.contract == Some(c@),
                None => self@.contract is None,
            },
    {
        match &self.contract {
            Some(c) => Some(c),
            None => None,
        }
    }

    pub(crate) fn module_name_text(&self) -> (r: &String)
        ensures
            r@ == self@.module_name,
    {
        &self.module_name
    }

    pub(crate) fn simd_on(&self) -> (r: bool)
        ensures
            r == self@.simd,
    {
        self.simd
    }

    pub(crate) fn precision_of(&self) -> (r: Precision)
        ensures
            r == self@.precision,
    {
        self.precision
    }

    /// A shape whose cells overflow a machine word, at the current line.
    pub(crate) fn oversize_error(&self) -> (r: HarmonyDisruption)
        ensures
            disruption_view(r) == oversize(self@.line),
    {
        let mut m = String::new();
        push_str(&mut m, "a shape whose cells overflow a machine word");
        HarmonyDisruption::LoweringErr { detail: m, line: self.current_line }
    }

    /// Read the space `name` at `address`.
    pub(crate) fn add_binding(&mut self, name: &String, address: u64)
        ensures
            final(self)@ == (GenV { bindings: old(self)@.bindings.insert(name@, address), ..old(self)@ }),
    {
        self.bindings.insert(name.as_str(), address);
    }

    /// Take the shapes, the bindings and the grid a program declares.
    pub(crate) fn configure(&mut self, shapes: ShapeTable, bindings: AddressTable, elements: usize)
        ensures
            final(self)@ == (GenV { shapes: shapes@, bindings: bindings@, elements, ..old(self)@ }),
    {
        self.space_shapes = shapes;
        self.bindings = bindings;
        self.elements = elements;
    }

    /// Every space with a shape, in the order the metadata lists them and
    /// `rho_kernel_exec_spaces` takes their pointers.
    pub fn space_names(&self) -> (r: Vec<String>)
        ensures
            crate::sv::names_of(r@) == crate::order::in_order(self@.shapes.dom()),
    {
        self.space_shapes.names()
    }

    /// The shape of the space `name`, if it has one.
    pub fn space_shape(&self, name: &String) -> (r: Option<Vec<usize>>)
        ensures
            match r {
                Some(v) => self@.shapes.contains_key(name@) && self@.shapes[name@] == v@,
                None => !self@.shapes.contains_key(name@),
            },
    {
        self.space_shapes.get(name)
    }

    /// Cells swept by each flow loop; also what a caller must allocate.
    pub fn element_count(&self) -> (r: usize)
        ensures
            r == self@.elements,
    {
        self.elements
    }
}

// ---------------------------------------------------------------- shapes

/// The least name a map holds, when it holds one.
pub open spec fn least_name(m: Map<Seq<char>, Seq<usize>>) -> Option<Seq<char>> {
    if exists|k: Seq<char>| m.contains_key(k) {
        Some(
            choose|k: Seq<char>|
                m.contains_key(k) && forall|j: Seq<char>| #[trigger] m.contains_key(j) && j != k ==> name_before(k, j),
        )
    } else {
        None
    }
}

/// The grid's shape: INPUT's, else the shape of the least name.
pub open spec fn primary_shape(m: Map<Seq<char>, Seq<usize>>) -> Option<Seq<usize>> {
    if m.contains_key("INPUT"@) {
        Some(m["INPUT"@])
    } else {
        match least_name(m) {
            Some(k) => Some(m[k]),
            None => None,
        }
    }
}

/// The shape a space is traversed with: its own, else the grid's, else one
/// line of the grid's cells.
pub open spec fn shape_for(g: GenV, name: Seq<char>) -> Seq<usize> {
    if g.shapes.contains_key(name) {
        g.shapes[name]
    } else {
        match primary_shape(g.shapes) {
            Some(s) => s,
            None => seq![g.elements],
        }
    }
}

/// The shape of the buffer a fold or scan was precomputed into.
pub open spec fn precomputed_shape(g: GenV, e: ExprV) -> Seq<usize> {
    match shape_of_expr(e, g.shapes) {
        Some(s) => s,
        None => seq![g.elements],
    }
}

pub(crate) fn primary_of(t: &ShapeTable) -> (r: Option<Vec<usize>>)
    ensures
        match r {
            Some(v) => primary_shape(t@) == Some(v@),
            None => primary_shape(t@) is None,
        },
{
    let mut input = String::new();
    push_str(&mut input, "INPUT");
    assert(input@ =~= "INPUT"@);
    match t.get(&input) {
        Some(v) => Some(v),
        None => match t.first() {
            Some((k, v)) => {
                proof {
                    crate::text::lemma_name_order();
                    let m = t@;
                    assert(exists|x: Seq<char>| m.contains_key(x));
                    let c = choose|c: Seq<char>|
                        m.contains_key(c) && forall|j: Seq<char>| #[trigger] m.contains_key(j) && j != c ==> name_before(
                            c,
                            j,
                        );
                    assert(m.contains_key(k@) && forall|j: Seq<char>| #[trigger] m.contains_key(j) && j != k@
                        ==> name_before(k@, j));
                    if c != k@ {
                        assert(name_before(c, k@));
                        assert(name_before(k@, c));
                        assert(name_before(c, c));
                    }
                }
                Some(v)
            },
            None => None,
        },
    }
}

impl LlvmCodeGen {
    fn primary(&self) -> (r: Option<Vec<usize>>)
        ensures
            match r {
                Some(v) => primary_shape(self@.shapes) == Some(v@),
                None => primary_shape(self@.shapes) is None,
            },
    {
        primary_of(&self.space_shapes)
    }

    fn shape_for(&self, name: &String) -> (r: Vec<usize>)
        ensures
            r@ == shape_for(self@, name@),
    {
        match self.space_shapes.get(name) {
            Some(v) => v,
            None => match self.primary() {
                Some(v) => v,
                None => {
                    let v = vec![self.elements];
                    assert(v@ =~= seq![self.elements]);
                    v
                },
            },
        }
    }

    fn precomputed_shape(&self, e: &Expr) -> (r: Vec<usize>)
        ensures
            r@ == precomputed_shape(self@, e@),
    {
        match crate::ast::expr_shape(e, &self.space_shapes) {
            Some(v) => v,
            None => {
                let v = vec![self.elements];
                assert(v@ =~= seq![self.elements]);
                v
            },
        }
    }
}

// ---------------------------------------------------------------- names, constants, places

/// The name the `n`-th fresh value gets.
pub open spec fn vname(n: int) -> Seq<char> {
    "%v"@ + decimal(n as nat)
}

fn fresh(counter: &mut usize) -> (r: String)
    requires
        *old(counter) < usize::MAX,
    ensures
        *final(counter) == *old(counter) + 1,
        r@ == vname(*old(counter) + 1),
{
    *counter = *counter + 1;
    let mut s = String::new();
    push_str(&mut s, "%v");
    push_decimal(&mut s, *counter as u64);
    s
}

/// A floating constant by its bits, as LLVM reads it.
pub open spec fn float_text(bits: u64) -> Seq<char> {
    "0x"@ + hex_digits(bits as nat, 16)
}

/// A floating constant in every lane.
pub open spec fn splat_text(mode: Mode, bits: u64) -> Seq<char> {
    match mode {
        Mode::Scalar(_) => float_text(bits),
        Mode::Vector(w, p) => "<"@ + lanes_of(element_type(p) + " "@ + float_text(bits), w as nat) + ">"@,
    }
}

fn splat(mode: Mode, bits: u64) -> (r: String)
    ensures
        r@ == splat_text(mode, bits),
{
    let mut lit = String::new();
    push_str(&mut lit, "0x");
    crate::sv::push_hex(&mut lit, bits, 16);
    match mode {
        Mode::Scalar(_) => lit,
        Mode::Vector(w, p) => {
            let mut lane = String::new();
            push_str(&mut lane, p.llvm_type());
            push_str(&mut lane, " ");
            push_str(&mut lane, lit.as_str());
            let mut s = String::new();
            push_str(&mut s, "<");
            let ghost start = s@;
            let mut i: usize = 0;
            while i < w
                invariant
                    i <= w,
                    s@ == start + lanes_of(lane@, i as nat),
                decreases w - i,
            {
                if i > 0 {
                    push_str(&mut s, ", ");
                }
                push_str(&mut s, lane.as_str());
                i = i + 1;
                proof {
                    if i == 1 {
                        assert(lanes_of(lane@, 0) =~= Seq::<char>::empty());
                    }
                }
                assert(s@ =~= start + lanes_of(lane@, i as nat));
            }
            push_str(&mut s, ">");
            s
        },
    }
}

/// The bits of 1.0.
pub open spec fn one() -> u64 {
    0x3FF0000000000000u64
}

/// The alignment of one number.
pub open spec fn align_of(p: Precision) -> nat {
    match p {
        Precision::F64 => 8,
        Precision::F32 => 4,
    }
}

fn align(p: Precision) -> (r: u64)
    ensures
        r == align_of(p),
{
    match p {
        Precision::F64 => 8,
        Precision::F32 => 4,
    }
}

/// The pointer a space is at, or the space is unknown here.
pub open spec fn lookup_spec(b: BuffersV, name: Seq<char>, line: usize) -> Result<Seq<char>, DisruptionV> {
    if b.map.contains_key(name) {
        Ok(b.map[name])
    } else {
        Err(DisruptionV::SpaceErr { space_name: name, line })
    }
}

impl LlvmCodeGen {
    fn lookup(&self, bufs: &Buffers, name: &String) -> (r: Result<String, HarmonyDisruption>)
        ensures
            match r {
                Ok(p) => lookup_spec(bufs@, name@, self@.line) == Ok::<Seq<char>, DisruptionV>(p@),
                Err(d) => lookup_spec(bufs@, name@, self@.line) == Err::<Seq<char>, DisruptionV>(disruption_view(d)),
            },
    {
        match pair_get(&bufs.map, name) {
            Some(p) => Ok(p),
            None => Err(HarmonyDisruption::SpaceErr { space_name: name.clone(), line: self.current_line }),
        }
    }
}

// ---------------------------------------------------------------- index maps

/// Instructions appended to `ir` that computed `value`, with the counter of
/// fresh names at `next`.
pub struct Step {
    pub value: Seq<char>,
    pub ir: Seq<char>,
    pub next: int,
}

/// Like a step, or the diagnostic the lowering stopped at.
pub struct Emitted {
    pub res: Result<Seq<char>, DisruptionV>,
    pub ir: Seq<char>,
    pub next: int,
}

/// Axis `k`'s part of an index into `source`: the coordinate of `idx`
/// along the axis of `result`, scaled by the axis's stride in `source`.
pub open spec fn axis_term(idx: Seq<char>, source: Seq<usize>, result: Seq<usize>, k: int, ir: Seq<char>, c: int) -> Step {
    let coord = vname(c + 1);
    let scaled = vname(c + 2);
    let rs = stride(result, k);
    let ss = stride(source, k);
    if rs == 1 {
        Step {
            value: scaled,
            ir: ir + "  "@ + coord + " = urem i64 "@ + idx + ", "@ + decimal(result[k] as nat) + "\n"@ + "  "@ + scaled
                + " = mul i64 "@ + coord + ", "@ + decimal(ss as nat) + "\n"@,
            next: c + 2,
        }
    } else {
        let div = vname(c + 3);
        Step {
            value: scaled,
            ir: ir + "  "@ + div + " = udiv i64 "@ + idx + ", "@ + decimal(rs as nat) + "\n"@ + "  "@ + coord + " = urem i64 "@
                + div + ", "@ + decimal(result[k] as nat) + "\n"@ + "  "@ + scaled + " = mul i64 "@ + coord + ", "@
                + decimal(ss as nat) + "\n"@,
            next: c + 3,
        }
    }
}

/// The terms of the first `k` axes: an axis `source` stretches adds none.
pub open spec fn terms_upto(
    idx: Seq<char>,
    source: Seq<usize>,
    result: Seq<usize>,
    k: nat,
    ir: Seq<char>,
    c: int,
) -> (Seq<Seq<char>>, Seq<char>, int)
    decreases k,
{
    if k == 0 {
        (Seq::empty(), ir, c)
    } else {
        let prev = terms_upto(idx, source, result, (k - 1) as nat, ir, c);
        if source[k - 1] <= 1 {
            prev
        } else {
            let t = axis_term(idx, source, result, k - 1, prev.1, prev.2);
            (prev.0.push(t.value), t.ir, t.next)
        }
    }
}

/// The first `m` terms added up, left to right.
pub open spec fn sum_terms(ts: Seq<Seq<char>>, m: nat, ir: Seq<char>, c: int) -> Step
    decreases m,
{
    if m <= 1 {
        Step { value: ts[0], ir, next: c }
    } else {
        let prev = sum_terms(ts, (m - 1) as nat, ir, c);
        let n = vname(prev.next + 1);
        Step { value: n, ir: prev.ir + "  "@ + n + " = add i64 "@ + prev.value + ", "@ + ts[m - 1] + "\n"@, next: prev.next + 1 }
    }
}

/// A shape whose cells overflow a machine word, as a diagnostic.
pub open spec fn oversize(line: usize) -> DisruptionV {
    DisruptionV::LoweringErr { detail: "a shape whose cells overflow a machine word"@, line }
}

/// An index into `result` as an index into `source`: they agree except
/// where `source` has a length-1 axis stretched against a longer one, which
/// contributes nothing.
#[verifier::opaque]
pub open spec fn index_map(line: usize, idx: Seq<char>, source: Seq<usize>, result: Seq<usize>, ir: Seq<char>, c: int) -> Emitted {
    if source == result || result.len() == 0 || source.len() != result.len() {
        Emitted { res: Ok(idx), ir, next: c }
    } else if !fits(source) || !fits(result) {
        Emitted { res: Err(oversize(line)), ir, next: c }
    } else {
        let t = terms_upto(idx, source, result, result.len(), ir, c);
        if t.0.len() == 0 {
            Emitted { res: Ok("0"@), ir: t.1, next: t.2 }
        } else {
            let s = sum_terms(t.0, t.0.len(), t.1, t.2);
            Emitted { res: Ok(s.value), ir: s.ir, next: s.next }
        }
    }
}

proof fn lemma_terms_grow(idx: Seq<char>, source: Seq<usize>, result: Seq<usize>, k: nat, n: nat, ir: Seq<char>, c: int)
    requires
        k <= n,
    ensures
        c <= terms_upto(idx, source, result, k, ir, c).2 <= terms_upto(idx, source, result, n, ir, c).2,
        terms_upto(idx, source, result, k, ir, c).0.len() <= k,
    decreases n,
{
    if n > 0 {
        if k < n {
            lemma_terms_grow(idx, source, result, k, (n - 1) as nat, ir, c);
        } else {
            lemma_terms_grow(idx, source, result, (n - 1) as nat, (n - 1) as nat, ir, c);
        }
    }
}

proof fn lemma_sum_grows(ts: Seq<Seq<char>>, m: nat, n: nat, ir: Seq<char>, c: int)
    requires
        m <= n,
    ensures
        c <= sum_terms(ts, m, ir, c).next <= sum_terms(ts, n, ir, c).next,
    decreases n,
{
    if n > 1 {
        if m < n {
            lemma_sum_grows(ts, m, (n - 1) as nat, ir, c);
        } else {
            lemma_sum_grows(ts, (n - 1) as nat, (n - 1) as nat, ir, c);
        }
    }
}

pub proof fn lemma_index_map_grows(line: usize, idx: Seq<char>, source: Seq<usize>, result: Seq<usize>, ir: Seq<char>, c: int)
    ensures
        c <= index_map(line, idx, source, result, ir, c).next,
{
    reveal(index_map);
    let n = result.len();
    lemma_terms_grow(idx, source, result, n, n, ir, c);
    let t = terms_upto(idx, source, result, n, ir, c);
    lemma_sum_grows(t.0, t.0.len(), t.0.len(), t.1, t.2);
}

impl LlvmCodeGen {
    #[verifier::spinoff_prover]
    #[verifier::rlimit(40)]
    fn emit_index_map(
        &self,
        ir: &mut String,
        idx: &String,
        source: &Vec<usize>,
        result: &Vec<usize>,
        counter: &mut usize,
    ) -> (r: Result<String, HarmonyDisruption>)
        requires
            index_map(self@.line, idx@, source@, result@, old(ir)@, *old(counter) as int).next <= usize::MAX,
        ensures
            final(ir)@ == index_map(self@.line, idx@, source@, result@, old(ir)@, *old(counter) as int).ir,
            *final(counter) == index_map(self@.line, idx@, source@, result@, old(ir)@, *old(counter) as int).next,
            match r {
                Ok(v) => index_map(self@.line, idx@, source@, result@, old(ir)@, *old(counter) as int).res == Ok::<
                    Seq<char>,
                    DisruptionV,
                >(v@),
                Err(d) => index_map(self@.line, idx@, source@, result@, old(ir)@, *old(counter) as int).res == Err::<
                    Seq<char>,
                    DisruptionV,
                >(disruption_view(d)),
            },
    {
        reveal(index_map);
        let ghost ir0 = ir@;
        let ghost c0 = *counter as int;
        if crate::parser::dims_eq(source.as_slice(), result.as_slice()) || result.len() == 0 || source.len()
            != result.len() {
            return Ok(idx.clone());
        }
        if !crate::expansion::shape_fits(source.as_slice()) || !crate::expansion::shape_fits(result.as_slice()) {
            return Err(HarmonyDisruption::LoweringErr {
                detail: {
                    let mut m = String::new();
                    push_str(&mut m, "a shape whose cells overflow a machine word");
                    m
                },
                line: self.current_line,
            });
        }
        let src_strides = crate::ast::strides_of(source.as_slice());
        let res_strides = crate::ast::strides_of(result.as_slice());
        let n = result.len();
        proof {
            lemma_terms_grow(idx@, source@, result@, n as nat, n as nat, ir0, c0);
            let t = terms_upto(idx@, source@, result@, n as nat, ir0, c0);
            lemma_sum_grows(t.0, t.0.len(), t.0.len(), t.1, t.2);
        }
        let mut terms: Vec<String> = Vec::new();
        let mut axis: usize = 0;
        assert(terms@.map_values(|t: String| t@) =~= Seq::<Seq<char>>::empty());
        while axis < n
            invariant
                axis <= n,
                n == result.len(),
                n == source.len(),
                src_strides.len() == n,
                res_strides.len() == n,
                forall|k: int| 0 <= k < n ==> src_strides@[k] == stride(source@, k),
                forall|k: int| 0 <= k < n ==> res_strides@[k] == stride(result@, k),
                terms_upto(idx@, source@, result@, axis as nat, ir0, c0) == (
                    terms@.map_values(|t: String| t@),
                    ir@,
                    *counter as int,
                ),
                terms_upto(idx@, source@, result@, n as nat, ir0, c0).2 <= usize::MAX,
            decreases n - axis,
        {
            proof {
                lemma_terms_grow(idx@, source@, result@, (axis + 1) as nat, n as nat, ir0, c0);
            }
            if source[axis] > 1 {
                let coord = fresh(counter);
                let scaled = fresh(counter);
                if res_strides[axis] == 1 {
                    push_str(ir, "  ");
                    push_str(ir, coord.as_str());
                    push_str(ir, " = urem i64 ");
                    push_str(ir, idx.as_str());
                    push_str(ir, ", ");
                    push_decimal(ir, result[axis] as u64);
                    push_str(ir, "\n");
                } else {
                    let div = fresh(counter);
                    push_str(ir, "  ");
                    push_str(ir, div.as_str());
                    push_str(ir, " = udiv i64 ");
                    push_str(ir, idx.as_str());
                    push_str(ir, ", ");
                    push_decimal(ir, res_strides[axis] as u64);
                    push_str(ir, "\n");
                    push_str(ir, "  ");
                    push_str(ir, coord.as_str());
                    push_str(ir, " = urem i64 ");
                    push_str(ir, div.as_str());
                    push_str(ir, ", ");
                    push_decimal(ir, result[axis] as u64);
                    push_str(ir, "\n");
                }
                push_str(ir, "  ");
                push_str(ir, scaled.as_str());
                push_str(ir, " = mul i64 ");
                push_str(ir, coord.as_str());
                push_str(ir, ", ");
                push_decimal(ir, src_strides[axis] as u64);
                push_str(ir, "\n");
                terms.push(scaled);
                proof {
                    assert(terms@.map_values(|t: String| t@) =~= terms@.drop_last().map_values(|t: String| t@).push(
                        terms@.last()@,
                    ));
                }
            }
            axis = axis + 1;
        }
        if terms.len() == 0 {
            let mut z = String::new();
            push_str(&mut z, "0");
            assert(z@ =~= "0"@);
            return Ok(z);
        }
        let ghost ts = terms@.map_values(|t: String| t@);
        let ghost ir1 = ir@;
        let ghost c1 = *counter as int;
        let mut acc = terms[0].clone();
        let mut m: usize = 1;
        while m < terms.len()
            invariant
                1 <= m <= terms.len(),
                ts == terms@.map_values(|t: String| t@),
                sum_terms(ts, m as nat, ir1, c1) == (Step { value: acc@, ir: ir@, next: *counter as int }),
                sum_terms(ts, ts.len(), ir1, c1).next <= usize::MAX,
            decreases terms.len() - m,
        {
            proof {
                lemma_sum_grows(ts, (m + 1) as nat, ts.len(), ir1, c1);
            }
            let next = fresh(counter);
            push_str(ir, "  ");
            push_str(ir, next.as_str());
            push_str(ir, " = add i64 ");
            push_str(ir, acc.as_str());
            push_str(ir, ", ");
            push_str(ir, terms[m].as_str());
            push_str(ir, "\n");
            acc = next;
            m = m + 1;
        }
        Ok(acc)
    }
}

// ---------------------------------------------------------------- the text of a mode

pub open spec fn ty_text(m: Mode) -> Seq<char> {
    match m {
        Mode::Scalar(p) => element_type(p),
        Mode::Vector(w, p) => vector_type(w, element_type(p)),
    }
}

pub open spec fn int_ty_text(m: Mode) -> Seq<char> {
    match m {
        Mode::Scalar(_) => "i64"@,
        Mode::Vector(w, _) => vector_type(w, "i64"@),
    }
}

pub open spec fn bool_ty_text(m: Mode) -> Seq<char> {
    match m {
        Mode::Scalar(_) => "i1"@,
        Mode::Vector(w, _) => vector_type(w, "i1"@),
    }
}

pub open spec fn zero_text(m: Mode) -> Seq<char> {
    match m {
        Mode::Scalar(_) => "0.0"@,
        Mode::Vector(..) => "zeroinitializer"@,
    }
}

pub open spec fn int_splat_text(m: Mode, v: u64) -> Seq<char> {
    match m {
        Mode::Scalar(_) => decimal(v as nat),
        Mode::Vector(w, _) => "<"@ + lanes_of("i64 "@ + decimal(v as nat), w as nat) + ">"@,
    }
}

pub open spec fn intrinsic_text(m: Mode, name: Seq<char>) -> Seq<char> {
    match m {
        Mode::Scalar(p) => "@llvm."@ + name + "."@ + suffix_of(p),
        Mode::Vector(w, p) => "@llvm."@ + name + ".v"@ + decimal(w as nat) + suffix_of(p),
    }
}

/// A construct this lowering does not take, as a diagnostic.
pub open spec fn not_lowered(what: Seq<char>, line: usize) -> DisruptionV {
    DisruptionV::LoweringErr { detail: what + " is not in the LLVM subset"@, line }
}

// ---------------------------------------------------------------- powers and reads

/// `k` products of `base` after the first factor.
pub open spec fn pow_steps(mode: Mode, base: Seq<char>, k: nat, ir: Seq<char>, c: int) -> Step
    decreases k,
{
    if k == 0 {
        Step { value: base, ir, next: c }
    } else {
        let p = pow_steps(mode, base, (k - 1) as nat, ir, c);
        let nx = vname(p.next + 1);
        Step {
            value: nx,
            ir: p.ir + "  "@ + nx + " = fmul "@ + ty_text(mode) + " "@ + p.value + ", "@ + base + "\n"@,
            next: p.next + 1,
        }
    }
}

/// `base ^ n` into `out`, as repeated products with a reciprocal for a
/// negative `n`: exact, and independent of a maths library.
pub open spec fn integer_power(mode: Mode, base: Seq<char>, n: int, out: Seq<char>, ir: Seq<char>, c: int) -> Step {
    if n == 0 {
        Step {
            value: out,
            ir: ir + "  "@ + out + " = fadd "@ + ty_text(mode) + " "@ + zero_text(mode) + ", "@ + splat_text(mode, one())
                + "\n"@,
            next: c,
        }
    } else {
        let k = if n < 0 {
            -n - 1
        } else {
            n - 1
        };
        let p = pow_steps(mode, base, k as nat, ir, c);
        if n < 0 {
            Step {
                value: out,
                ir: p.ir + "  "@ + out + " = fdiv "@ + ty_text(mode) + " "@ + splat_text(mode, one()) + ", "@ + p.value
                    + "\n"@,
                next: p.next,
            }
        } else {
            Step {
                value: out,
                ir: p.ir + "  "@ + out + " = fadd "@ + ty_text(mode) + " "@ + zero_text(mode) + ", "@ + p.value + "\n"@,
                next: p.next,
            }
        }
    }
}

/// The cell at `at` of the buffer at `ptr`.
pub open spec fn read_cell(g: GenV, mode: Mode, ptr: Seq<char>, at: Seq<char>, ir: Seq<char>, c: int) -> Emitted {
    let gep = vname(c + 1);
    let val = vname(c + 2);
    Emitted {
        res: Ok(val),
        ir: ir + "  "@ + gep + " = getelementptr inbounds "@ + element_type(g.precision) + ", ptr "@ + ptr + ", i64 "@ + at
            + "\n"@ + "  "@ + val + " = load "@ + ty_text(mode) + ", ptr "@ + gep + ", align "@ + decimal(align_of(g.precision))
            + "\n"@,
        next: c + 2,
    }
}

proof fn lemma_pow_grows(mode: Mode, base: Seq<char>, k: nat, ir: Seq<char>, c: int)
    ensures
        c <= pow_steps(mode, base, k, ir, c).next,
    decreases k,
{
    if k > 0 {
        lemma_pow_grows(mode, base, (k - 1) as nat, ir, c);
    }
}

// ---------------------------------------------------------------- shifts

/// The space a shift reads: a name, perhaps under a trace.
pub open spec fn place_name(e: ExprV) -> Option<Seq<char>>
    decreases e,
{
    match e {
        ExprV::Var(n) => Some(n),
        ExprV::AuditTrace(inner) => place_name(*inner),
        _ => None,
    }
}

pub open spec fn dir_glyph(d: ShiftDir) -> Seq<char> {
    match d {
        ShiftDir::Positive => "▷"@,
        ShiftDir::Negative => "▽"@,
    }
}

/// `i64 0, i64 1, …` for the first `n` lanes.
pub open spec fn lane_offsets(n: nat) -> Seq<char>
    decreases n,
{
    if n == 0 {
        Seq::empty()
    } else if n == 1 {
        "i64 "@ + decimal(0)
    } else {
        lane_offsets((n - 1) as nat) + ", "@ + "i64 "@ + decimal((n - 1) as nat)
    }
}

/// The index of each lane: `idx` itself, or `idx` plus the lane number.
pub open spec fn lane_part(mode: Mode, idx: Seq<char>, ir: Seq<char>, c: int) -> Step {
    match mode {
        Mode::Scalar(_) => Step { value: idx, ir, next: c },
        Mode::Vector(w, _) => {
            let it = int_ty_text(mode);
            let seed = vname(c + 1);
            let splat = vname(c + 2);
            let lanes = vname(c + 3);
            Step {
                value: lanes,
                ir: ir + "  "@ + seed + " = insertelement "@ + it + " poison, i64 "@ + idx + ", i64 0\n"@ + "  "@ + splat
                    + " = shufflevector "@ + it + " "@ + seed + ", "@ + it + " poison, <"@ + decimal(w as nat)
                    + " x i32> zeroinitializer\n"@ + "  "@ + lanes + " = add "@ + it + " "@ + splat + ", <"@ + lane_offsets(
                    w as nat,
                ) + ">\n"@,
                next: c + 3,
            }
        },
    }
}

/// The position along the axis: `(i / stride) % extent`, per lane.
pub open spec fn pos_part(mode: Mode, lane: Seq<char>, stride: usize, extent: usize, ir: Seq<char>, c: int) -> Step {
    let it = int_ty_text(mode);
    if stride == 1 {
        let p = vname(c + 1);
        Step {
            value: p,
            ir: ir + "  "@ + p + " = urem "@ + it + " "@ + lane + ", "@ + int_splat_text(mode, extent as u64) + "\n"@,
            next: c + 1,
        }
    } else {
        let q = vname(c + 1);
        let p = vname(c + 2);
        Step {
            value: p,
            ir: ir + "  "@ + q + " = udiv "@ + it + " "@ + lane + ", "@ + int_splat_text(mode, stride as u64) + "\n"@ + "  "@
                + p + " = urem "@ + it + " "@ + q + ", "@ + int_splat_text(mode, extent as u64) + "\n"@,
            next: c + 2,
        }
    }
}

/// `▷X` reads the preceding cell along an axis and `▽X` the following one,
/// zero at that axis's boundary. A vector of lanes reads one contiguous
/// window; a single lane clamps its read to the sweep.
#[verifier::opaque]
pub open spec fn shift_spec(
    g: GenV,
    operand: ExprV,
    dir: ShiftDir,
    axis: Option<usize>,
    b: BuffersV,
    idx: Seq<char>,
    mode: Mode,
    ir: Seq<char>,
    c: int,
) -> Emitted {
    match place_name(operand) {
        None => Emitted {
            res: Err(
                DisruptionV::LoweringErr {
                    detail: dir_glyph(dir)
                        + " is a neighbourhood shift over a declared space, so it cannot be applied to a computed value. Flow the sub-expression into its own space first."@,
                    line: g.line,
                },
            ),
            ir,
            next: c,
        },
        Some(name) => match lookup_spec(b, name, g.line) {
            Err(d) => Emitted { res: Err(d), ir, next: c },
            Ok(ptr) => {
                let shape = shape_for(g, name);
                if !fits(shape) {
                    Emitted { res: Err(oversize(g.line)), ir, next: c }
                } else {
                    match geometry_of(shape, axis) {
                        None => Emitted {
                            res: Err(
                                DisruptionV::LoweringErr {
                                    detail: "axis "@ + (match axis {
                                        Some(a) => decimal(a as nat),
                                        None => "default"@,
                                    }) + " is out of range for a rank-"@ + decimal(shape.len()) + " space (shape "@
                                        + crate::text::debug_dims(shape) + ")"@,
                                    line: g.line,
                                },
                            ),
                            ir,
                            next: c,
                        },
                        Some((stride, extent)) => {
                            let label = match axis {
                                Some(a) => "axis "@ + decimal(a as nat),
                                None => "last axis"@,
                            };
                            let ty = ty_text(mode);
                            if extent <= 1 {
                                Emitted {
                                    res: Ok(zero_text(mode)),
                                    ir: ir + "  ; "@ + dir_glyph(dir) + name + " along "@ + label + ": extent "@ + decimal(
                                        extent as nat,
                                    ) + ", every cell is a boundary\n"@,
                                    next: c,
                                }
                            } else {
                                let ir1 = ir + "  ; "@ + dir_glyph(dir) + name + " along "@ + label + " (stride "@ + decimal(
                                    stride as nat,
                                ) + ", extent "@ + decimal(extent as nat) + ")\n"@;
                                let l = lane_part(mode, idx, ir1, c);
                                let p = pos_part(mode, l.value, stride, extent, l.ir, l.next);
                                let at_edge = vname(p.next + 1);
                                let edge: nat = match dir {
                                    ShiftDir::Positive => 0,
                                    ShiftDir::Negative => (extent - 1) as nat,
                                };
                                let base = vname(p.next + 2);
                                let ir2 = p.ir + "  "@ + at_edge + " = icmp eq "@ + int_ty_text(mode) + " "@ + p.value + ", "@
                                    + int_splat_text(mode, edge as u64) + "\n"@ + "  "@ + base + (match dir {
                                    ShiftDir::Positive => " = sub i64 "@,
                                    ShiftDir::Negative => " = add i64 "@,
                                }) + idx + ", "@ + decimal(stride as nat) + "\n"@;
                                match mode {
                                    Mode::Vector(..) => {
                                        let gep = vname(p.next + 3);
                                        let val = vname(p.next + 4);
                                        let out = vname(p.next + 5);
                                        Emitted {
                                            res: Ok(out),
                                            ir: ir2 + "  "@ + gep + " = getelementptr inbounds "@ + element_type(g.precision)
                                                + ", ptr "@ + ptr + ", i64 "@ + base + "\n"@ + "  "@ + val + " = load "@ + ty
                                                + ", ptr "@ + gep + ", align "@ + decimal(align_of(g.precision)) + "\n"@ + "  "@
                                                + out + " = select "@ + bool_ty_text(mode) + " "@ + at_edge + ", "@ + ty + " "@
                                                + zero_text(mode) + ", "@ + ty + " "@ + val + "\n"@,
                                            next: p.next + 5,
                                        }
                                    },
                                    Mode::Scalar(_) => {
                                        let past_end = vname(p.next + 3);
                                        let skip = vname(p.next + 4);
                                        let clamped = vname(p.next + 5);
                                        let gep = vname(p.next + 6);
                                        let val = vname(p.next + 7);
                                        let out = vname(p.next + 8);
                                        Emitted {
                                            res: Ok(out),
                                            ir: ir2 + "  "@ + past_end + " = icmp uge i64 "@ + base + ", "@ + b.bound + "\n"@
                                                + "  "@ + skip + " = or i1 "@ + at_edge + ", "@ + past_end + "\n"@ + "  "@
                                                + clamped + " = select i1 "@ + skip + ", i64 0, i64 "@ + base + "\n"@
                                                + "  ; boundary or past the sweep -> 0\n"@ + "  "@ + gep
                                                + " = getelementptr inbounds "@ + element_type(g.precision) + ", ptr "@ + ptr
                                                + ", i64 "@ + clamped + "\n"@ + "  "@ + val + " = load "@ + ty + ", ptr "@ + gep
                                                + ", align "@ + decimal(align_of(g.precision)) + "\n"@ + "  "@ + out
                                                + " = select i1 "@ + skip + ", "@ + ty + " "@ + zero_text(mode) + ", "@ + ty
                                                + " "@ + val + "\n"@,
                                            next: p.next + 8,
                                        }
                                    },
                                }
                            }
                        },
                    }
                }
            },
        },
    }
}

proof fn lemma_shift_grows(
    g: GenV,
    operand: ExprV,
    dir: ShiftDir,
    axis: Option<usize>,
    b: BuffersV,
    idx: Seq<char>,
    mode: Mode,
    ir: Seq<char>,
    c: int,
)
    ensures
        c <= shift_spec(g, operand, dir, axis, b, idx, mode, ir, c).next,
{
    reveal(shift_spec);
}

// ---------------------------------------------------------------- expressions

/// A literal with no bits given, as a diagnostic.
pub open spec fn no_bits(text: Seq<char>, line: usize) -> DisruptionV {
    DisruptionV::LoweringErr { detail: "no bits were given for the literal `"@ + text + "`"@, line }
}

/// The intrinsic a named function lowers to, when it lowers to one.
pub open spec fn builtin_intrinsic(op: BuiltinOp) -> Option<Seq<char>> {
    match op {
        BuiltinOp::Abs => Some("fabs"@),
        BuiltinOp::Exp => Some("exp"@),
        BuiltinOp::Log => Some("log"@),
        BuiltinOp::Sqrt => Some("sqrt"@),
        BuiltinOp::Sin => Some("sin"@),
        BuiltinOp::Cos => Some("cos"@),
        _ => None,
    }
}

/// The predicate a comparison lowers to.
pub open spec fn predicate_of(op: BinaryOpKind) -> Option<Seq<char>> {
    match op {
        BinaryOpKind::Gt => Some("ogt"@),
        BinaryOpKind::Lt => Some("olt"@),
        BinaryOpKind::Gte => Some("oge"@),
        BinaryOpKind::Lte => Some("ole"@),
        BinaryOpKind::Eq => Some("oeq"@),
        _ => None,
    }
}

/// The instruction an arithmetic operator lowers to.
pub open spec fn arith_of(op: BinaryOpKind) -> Option<Seq<char>> {
    match op {
        BinaryOpKind::Add => Some("fadd"@),
        BinaryOpKind::Sub => Some("fsub"@),
        BinaryOpKind::Mul => Some("fmul"@),
        BinaryOpKind::Div => Some("fdiv"@),
        _ => None,
    }
}

/// What a node of a kind this lowering does not take is called in its
/// diagnostic.
pub open spec fn unlowered_name(e: ExprV) -> Seq<char> {
    match e {
        ExprV::Rotate { .. } => "a rotation or reversal"@,
        ExprV::Reverse { .. } => "a rotation or reversal"@,
        ExprV::Reshape { .. } => "a reshape or transpose"@,
        ExprV::Transpose { .. } => "a reshape or transpose"@,
        ExprV::Take { .. } => "a take or drop"@,
        ExprV::Drop { .. } => "a take or drop"@,
        ExprV::Index { .. } => "a coordinate (`⍳`)"@,
        ExprV::Call { name, .. } => "the call to `"@ + name + "`, which was not expanded"@,
        ExprV::Builtin { .. } => "the floor, the ceiling and the roll"@,
        _ => "the greater, the lesser and the residue"@,
    }
}

/// A flag that holds where `v` is not zero: unordered, so NaN is not zero.
pub open spec fn nonzero_of(mode: Mode, v: Emitted) -> Emitted {
    match v.res {
        Err(d) => v,
        Ok(value) => {
            let flag = vname(v.next + 1);
            Emitted {
                res: Ok(flag),
                ir: v.ir + "  "@ + flag + " = fcmp une "@ + ty_text(mode) + " "@ + value + ", "@ + zero_text(mode) + "\n"@,
                next: v.next + 1,
            }
        },
    }
}

/// A space read at the cell: its pointer, its index through the lifts and
/// the stretched axes, and a load; 𝜏 is its bits.
#[verifier::opaque]
pub open spec fn var_spec(g: GenV,
    e: ExprV,
    b: BuffersV,
    idx: Seq<char>,
    mode: Mode,
    result: Seq<usize>,
    lifts: Seq<usize>,
    ir: Seq<char>,
    c: int,
) -> Emitted {
    match e {
        ExprV::Var(n) => if crate::text::is_tau_name(n) {
            Emitted { res: Ok(splat_text(mode, g.tau)), ir, next: c }
        } else {
            match lookup_spec(b, n, g.line) {
                Err(d) => Emitted { res: Err(d), ir, next: c },
                Ok(ptr) => {
                    let m = index_map(g.line, idx, lifted_spec(shape_for(g, n), lifts), result, ir, c);
                    match m.res {
                        Err(d) => m,
                        Ok(at) => read_cell(g, mode, ptr, at, m.ir, m.next),
                    }
                },
            }
        },
        _ => Emitted { res: Err(not_lowered(unlowered_name(e), g.line)), ir, next: c },
    }
}

/// A fold or scan, read from the buffer it was computed into before the
/// sweep.
#[verifier::opaque]
pub open spec fn fold_spec(g: GenV,
    e: ExprV,
    b: BuffersV,
    idx: Seq<char>,
    mode: Mode,
    result: Seq<usize>,
    lifts: Seq<usize>,
    ir: Seq<char>,
    c: int,
) -> Emitted {
    let key = glyphs(e);
    if !b.folds.contains_key(key) {
        Emitted {
            res: Err(
                DisruptionV::LoweringErr { detail: "a fold was not precomputed before the sweep that reads it"@, line: g.line },
            ),
            ir,
            next: c,
        }
    } else {
        let m = index_map(g.line, idx, lifted_spec(precomputed_shape(g, e), lifts), result, ir, c);
        match m.res {
            Err(d) => m,
            Ok(at) => read_cell(g, mode, b.folds[key], at, m.ir, m.next),
        }
    }
}

/// A named function: a call of its intrinsic on the operand's value.
pub open spec fn builtin_spec(g: GenV,
    e: ExprV,
    b: BuffersV,
    idx: Seq<char>,
    mode: Mode,
    result: Seq<usize>,
    lifts: Seq<usize>,
    ir: Seq<char>,
    c: int,
) -> Emitted
    decreases e, 2int,
{
    match e {
        ExprV::Builtin { op, operand } => match builtin_intrinsic(op) {
            None => Emitted { res: Err(not_lowered(unlowered_name(e), g.line)), ir, next: c },
            Some(name) => {
                let v = emit_spec(g, *operand, b, idx, mode, result, lifts, ir, c);
                match v.res {
                    Err(d) => v,
                    Ok(x) => {
                        let out = vname(v.next + 1);
                        let ty = ty_text(mode);
                        Emitted {
                            res: Ok(out),
                            ir: v.ir + "  "@ + out + " = call "@ + ty + " "@ + intrinsic_text(mode, name) + "("@ + ty + " "@ + x
                                + ")\n"@,
                            next: v.next + 1,
                        }
                    },
                }
            },
        },
        _ => Emitted { res: Err(not_lowered(unlowered_name(e), g.line)), ir, next: c },
    }
}

/// The flag of `ind (L op R)` for a comparison `op`: the comparison itself.
pub open spec fn compare_spec(g: GenV,
    e: ExprV,
    b: BuffersV,
    idx: Seq<char>,
    mode: Mode,
    result: Seq<usize>,
    lifts: Seq<usize>,
    ir: Seq<char>,
    c: int,
) -> Emitted
    decreases e, 0int,
{
    match e {
        ExprV::Builtin { operand, .. } => match *operand {
            ExprV::BinaryOp { op, lhs, rhs } => match predicate_of(op) {
                Some(pred) => {
                    let l = emit_spec(g, *lhs, b, idx, mode, result, lifts, ir, c);
                    match l.res {
                        Err(d) => l,
                        Ok(lv) => {
                            let r = emit_spec(g, *rhs, b, idx, mode, result, lifts, l.ir, l.next);
                            match r.res {
                                Err(d) => r,
                                Ok(rv) => {
                                    let f = vname(r.next + 1);
                                    Emitted {
                                        res: Ok(f),
                                        ir: r.ir + "  "@ + f + " = fcmp "@ + pred + " "@ + ty_text(mode) + " "@ + lv + ", "@
                                            + rv + "\n"@,
                                        next: r.next + 1,
                                    }
                                },
                            }
                        },
                    }
                },
                None => Emitted { res: Err(not_lowered(unlowered_name(e), g.line)), ir, next: c },
            },
            _ => Emitted { res: Err(not_lowered(unlowered_name(e), g.line)), ir, next: c },
        },
        _ => Emitted { res: Err(not_lowered(unlowered_name(e), g.line)), ir, next: c },
    }
}

/// Whether `ind X` selects by a comparison's truth.
pub open spec fn compares(e: ExprV) -> bool {
    match e {
        ExprV::Builtin { operand, .. } => match *operand {
            ExprV::BinaryOp { op, .. } => predicate_of(op) is Some,
            _ => false,
        },
        _ => false,
    }
}

/// The flag `ind X` selects by, computed after its own result's name was
/// taken: a comparison's truth, or that the value is not zero.
pub open spec fn flag_spec(g: GenV,
    e: ExprV,
    b: BuffersV,
    idx: Seq<char>,
    mode: Mode,
    result: Seq<usize>,
    lifts: Seq<usize>,
    ir: Seq<char>,
    c: int,
) -> Emitted
    decreases e, 1int,
{
    if compares(e) {
        compare_spec(g, e, b, idx, mode, result, lifts, ir, c)
    } else {
        match e {
            ExprV::Builtin { operand, .. } => nonzero_of(mode, emit_spec(g, *operand, b, idx, mode, result, lifts, ir, c)),
            _ => Emitted { res: Err(not_lowered(unlowered_name(e), g.line)), ir, next: c },
        }
    }
}

/// `ind X`: one where the flag holds, zero elsewhere. The flag of a
/// comparison is the comparison itself; of anything else, that the value is
/// not zero.
pub open spec fn indicator_spec(g: GenV,
    e: ExprV,
    b: BuffersV,
    idx: Seq<char>,
    mode: Mode,
    result: Seq<usize>,
    lifts: Seq<usize>,
    ir: Seq<char>,
    c: int,
) -> Emitted
    decreases e, 2int,
{
    let ty = ty_text(mode);
    let out = vname(c + 1);
    let flag = flag_spec(g, e, b, idx, mode, result, lifts, ir, c + 1);
    match flag.res {
        Err(d) => flag,
        Ok(fv) => Emitted {
            res: Ok(out),
            ir: flag.ir + "  "@ + out + " = select "@ + bool_ty_text(mode) + " "@ + fv + ", "@ + ty + " "@ + splat_text(
                mode,
                one(),
            ) + ", "@ + ty + " "@ + zero_text(mode) + "\n"@,
            next: flag.next,
        },
    }
}

/// A binary operation on the two operands' values: an instruction, a
/// comparison that masks the left value, or a power.
pub open spec fn binary_spec(g: GenV,
    e: ExprV,
    b: BuffersV,
    idx: Seq<char>,
    mode: Mode,
    result: Seq<usize>,
    lifts: Seq<usize>,
    ir: Seq<char>,
    c: int,
) -> Emitted
    decreases e, 2int,
{
    match e {
        ExprV::BinaryOp { op, lhs, rhs } => if op is Max || op is Min || op is Residue {
            Emitted { res: Err(not_lowered(unlowered_name(e), g.line)), ir, next: c }
        } else {
            let ty = ty_text(mode);
            let l = emit_spec(g, *lhs, b, idx, mode, result, lifts, ir, c);
            match l.res {
                Err(d) => l,
                Ok(lv) => {
                    let r = emit_spec(g, *rhs, b, idx, mode, result, lifts, l.ir, l.next);
                    match r.res {
                        Err(d) => r,
                        Ok(rv) => {
                            let out = vname(r.next + 1);
                            let c1 = r.next + 1;
                            match arith_of(op) {
                                Some(inst) => Emitted {
                                    res: Ok(out),
                                    ir: r.ir + "  "@ + out + " = "@ + inst + " "@ + ty + " "@ + lv + ", "@ + rv + "\n"@,
                                    next: c1,
                                },
                                None => match predicate_of(op) {
                                    Some(pred) => {
                                        let flag = vname(c1 + 1);
                                        Emitted {
                                            res: Ok(out),
                                            ir: r.ir + "  "@ + flag + " = fcmp "@ + pred + " "@ + ty + " "@ + lv + ", "@ + rv
                                                + "\n"@ + "  "@ + out + " = select "@ + bool_ty_text(mode) + " "@ + flag + ", "@
                                                + ty + " "@ + lv + ", "@ + ty + " "@ + zero_text(mode) + "\n"@,
                                            next: c1 + 1,
                                        }
                                    },
                                    None => match whole_exponent_of(*rhs) {
                                        Some(n) => {
                                            let p = integer_power(mode, lv, n, out, r.ir, c1);
                                            Emitted { res: Ok(out), ir: p.ir, next: p.next }
                                        },
                                        None => Emitted {
                                            res: Ok(out),
                                            ir: r.ir + "  "@ + out + " = call "@ + ty + " "@ + intrinsic_text(mode, "pow"@) + "("@
                                                + ty + " "@ + lv + ", "@ + ty + " "@ + rv + ")\n"@,
                                            next: c1,
                                        },
                                    },
                                },
                            }
                        },
                    }
                },
            }
        },
        _ => Emitted { res: Err(not_lowered(unlowered_name(e), g.line)), ir, next: c },
    }
}

/// The value of `e` at the cell `idx` of a sweep over `result`, with the
/// enclosing lifts' axes `lifts`, and the instructions that compute it.
pub open spec fn emit_spec(g: GenV,
    e: ExprV,
    b: BuffersV,
    idx: Seq<char>,
    mode: Mode,
    result: Seq<usize>,
    lifts: Seq<usize>,
    ir: Seq<char>,
    c: int,
) -> Emitted
    decreases e, 3int,
{
    match e {
        ExprV::Number(t) => if g.numbers.contains_key(t) {
            Emitted { res: Ok(splat_text(mode, g.numbers[t])), ir, next: c }
        } else {
            Emitted { res: Err(no_bits(t, g.line)), ir, next: c }
        },
        ExprV::Var(_) => var_spec(g, e, b, idx, mode, result, lifts, ir, c),
        ExprV::AuditTrace(inner) => emit_spec(g, *inner, b, idx, mode, result, lifts, ir, c),
        ExprV::Builtin { op: BuiltinOp::Indicator, .. } => indicator_spec(g, e, b, idx, mode, result, lifts, ir, c),
        ExprV::Builtin { .. } => builtin_spec(g, e, b, idx, mode, result, lifts, ir, c),
        ExprV::Lift { axis, operand } => emit_spec(g, *operand, b, idx, mode, result, lifts.push(axis), ir, c),
        ExprV::Shift { dir, axis, operand } => shift_spec(g, *operand, dir, axis, b, idx, mode, ir, c),
        ExprV::Reduce { .. } => fold_spec(g, e, b, idx, mode, result, lifts, ir, c),
        ExprV::Scan { .. } => fold_spec(g, e, b, idx, mode, result, lifts, ir, c),
        ExprV::BinaryOp { .. } => binary_spec(g, e, b, idx, mode, result, lifts, ir, c),
        _ => Emitted { res: Err(not_lowered(unlowered_name(e), g.line)), ir, next: c },
    }
}

proof fn lemma_power_grows(mode: Mode, base: Seq<char>, n: int, out: Seq<char>, ir: Seq<char>, c: int)
    ensures
        c <= integer_power(mode, base, n, out, ir, c).next,
{
    if n != 0 {
        let k = if n < 0 {
            -n - 1
        } else {
            n - 1
        };
        lemma_pow_grows(mode, base, k as nat, ir, c);
    }
}

proof fn lemma_compare_grows(g: GenV,
    e: ExprV,
    b: BuffersV,
    idx: Seq<char>,
    mode: Mode,
    result: Seq<usize>,
    lifts: Seq<usize>,
    ir: Seq<char>,
    c: int,
)
    ensures
        c <= compare_spec(g, e, b, idx, mode, result, lifts, ir, c).next,
    decreases e, 0int,
{
    if let ExprV::Builtin { operand, .. } = e {
        if let ExprV::BinaryOp { op: o, lhs, rhs } = *operand {
            lemma_emit_grows(g, *lhs, b, idx, mode, result, lifts, ir, c);
            let l = emit_spec(g, *lhs, b, idx, mode, result, lifts, ir, c);
            lemma_emit_grows(g, *rhs, b, idx, mode, result, lifts, l.ir, l.next);
        }
    }
}

proof fn lemma_flag_grows(g: GenV,
    e: ExprV,
    b: BuffersV,
    idx: Seq<char>,
    mode: Mode,
    result: Seq<usize>,
    lifts: Seq<usize>,
    ir: Seq<char>,
    c: int,
)
    ensures
        c <= flag_spec(g, e, b, idx, mode, result, lifts, ir, c).next,
    decreases e, 1int,
{
    if compares(e) {
        lemma_compare_grows(g, e, b, idx, mode, result, lifts, ir, c);
    } else if let ExprV::Builtin { operand, .. } = e {
        lemma_emit_grows(g, *operand, b, idx, mode, result, lifts, ir, c);
    }
}

proof fn lemma_indicator_grows(g: GenV,
    e: ExprV,
    b: BuffersV,
    idx: Seq<char>,
    mode: Mode,
    result: Seq<usize>,
    lifts: Seq<usize>,
    ir: Seq<char>,
    c: int,
)
    ensures
        c <= indicator_spec(g, e, b, idx, mode, result, lifts, ir, c).next,
    decreases e, 2int,
{
    lemma_flag_grows(g, e, b, idx, mode, result, lifts, ir, c + 1);
}

proof fn lemma_builtin_grows(g: GenV,
    e: ExprV,
    b: BuffersV,
    idx: Seq<char>,
    mode: Mode,
    result: Seq<usize>,
    lifts: Seq<usize>,
    ir: Seq<char>,
    c: int,
)
    ensures
        c <= builtin_spec(g, e, b, idx, mode, result, lifts, ir, c).next,
    decreases e, 2int,
{
    if let ExprV::Builtin { operand, .. } = e {
        lemma_emit_grows(g, *operand, b, idx, mode, result, lifts, ir, c);
    }
}

proof fn lemma_binary_grows(g: GenV,
    e: ExprV,
    b: BuffersV,
    idx: Seq<char>,
    mode: Mode,
    result: Seq<usize>,
    lifts: Seq<usize>,
    ir: Seq<char>,
    c: int,
)
    ensures
        c <= binary_spec(g, e, b, idx, mode, result, lifts, ir, c).next,
    decreases e, 2int,
{
    if let ExprV::BinaryOp { lhs, rhs, .. } = e {
        lemma_emit_grows(g, *lhs, b, idx, mode, result, lifts, ir, c);
        let l = emit_spec(g, *lhs, b, idx, mode, result, lifts, ir, c);
        lemma_emit_grows(g, *rhs, b, idx, mode, result, lifts, l.ir, l.next);
        let r = emit_spec(g, *rhs, b, idx, mode, result, lifts, l.ir, l.next);
        if let Ok(lv) = l.res {
            if let Some(n) = whole_exponent_of(*rhs) {
                lemma_power_grows(mode, lv, n, vname(r.next + 1), r.ir, r.next + 1);
            }
        }
    }
}

proof fn lemma_var_grows(g: GenV,
    e: ExprV,
    b: BuffersV,
    idx: Seq<char>,
    mode: Mode,
    result: Seq<usize>,
    lifts: Seq<usize>,
    ir: Seq<char>,
    c: int,
)
    ensures
        c <= var_spec(g, e, b, idx, mode, result, lifts, ir, c).next,
{
    reveal(var_spec);
    if let ExprV::Var(n) = e {
        lemma_index_map_grows(g.line, idx, lifted_spec(shape_for(g, n), lifts), result, ir, c);
    }
}

proof fn lemma_fold_grows(g: GenV,
    e: ExprV,
    b: BuffersV,
    idx: Seq<char>,
    mode: Mode,
    result: Seq<usize>,
    lifts: Seq<usize>,
    ir: Seq<char>,
    c: int,
)
    ensures
        c <= fold_spec(g, e, b, idx, mode, result, lifts, ir, c).next,
{
    reveal(fold_spec);
    lemma_index_map_grows(g.line, idx, lifted_spec(precomputed_shape(g, e), lifts), result, ir, c);
}

/// Lowering only ever takes fresh names: the counter does not go back.
pub proof fn lemma_emit_grows(g: GenV,
    e: ExprV,
    b: BuffersV,
    idx: Seq<char>,
    mode: Mode,
    result: Seq<usize>,
    lifts: Seq<usize>,
    ir: Seq<char>,
    c: int,
)
    ensures
        c <= emit_spec(g, e, b, idx, mode, result, lifts, ir, c).next,
    decreases e, 3int,
{
    match e {
        ExprV::Var(_) => lemma_var_grows(g, e, b, idx, mode, result, lifts, ir, c),
        ExprV::AuditTrace(inner) => lemma_emit_grows(g, *inner, b, idx, mode, result, lifts, ir, c),
        ExprV::Builtin { op, operand } => {
            if op is Indicator {
                lemma_indicator_grows(g, e, b, idx, mode, result, lifts, ir, c);
            } else {
                lemma_builtin_grows(g, e, b, idx, mode, result, lifts, ir, c);
            }
        },
        ExprV::Lift { axis, operand } => lemma_emit_grows(g, *operand, b, idx, mode, result, lifts.push(axis), ir, c),
        ExprV::Shift { dir, axis, operand } => lemma_shift_grows(g, *operand, dir, axis, b, idx, mode, ir, c),
        ExprV::Reduce { .. } | ExprV::Scan { .. } => lemma_fold_grows(g, e, b, idx, mode, result, lifts, ir, c),
        ExprV::BinaryOp { .. } => lemma_binary_grows(g, e, b, idx, mode, result, lifts, ir, c),
        _ => {},
    }
}

// ---------------------------------------------------------------- lowering, executed

fn place_name_of(e: &Expr) -> (r: Option<String>)
    ensures
        match r {
            Some(n) => place_name(e@) == Some(n@),
            None => place_name(e@) is None,
        },
    decreases e,
{
    match e {
        Expr::Var(n) => Some(n.clone()),
        Expr::AuditTrace(inner) => place_name_of(inner),
        _ => None,
    }
}

fn lane_index(mode: Mode, idx: &String, ir: &mut String, counter: &mut usize) -> (r: String)
    requires
        lane_part(mode, idx@, old(ir)@, *old(counter) as int).next <= usize::MAX,
    ensures
        final(ir)@ == lane_part(mode, idx@, old(ir)@, *old(counter) as int).ir,
        *final(counter) == lane_part(mode, idx@, old(ir)@, *old(counter) as int).next,
        r@ == lane_part(mode, idx@, old(ir)@, *old(counter) as int).value,
{
    match mode {
        Mode::Scalar(_) => idx.clone(),
        Mode::Vector(w, _) => {
            let it = mode.int_ty();
            let seed = fresh(counter);
            let splat = fresh(counter);
            let lanes = fresh(counter);
            let mut offsets = String::new();
            let mut l: usize = 0;
            assert(offsets@ =~= lane_offsets(0));
            while l < w
                invariant
                    l <= w,
                    offsets@ == lane_offsets(l as nat),
                decreases w - l,
            {
                if l > 0 {
                    push_str(&mut offsets, ", ");
                }
                push_str(&mut offsets, "i64 ");
                push_decimal(&mut offsets, l as u64);
                proof {
                    if l == 0 {
                        assert(offsets@ =~= lane_offsets(1));
                    } else {
                        assert(offsets@ =~= lane_offsets((l + 1) as nat));
                    }
                }
                l = l + 1;
            }
            push_str(ir, "  ");
            push_str(ir, seed.as_str());
            push_str(ir, " = insertelement ");
            push_str(ir, it.as_str());
            push_str(ir, " poison, i64 ");
            push_str(ir, idx.as_str());
            push_str(ir, ", i64 0\n");
            push_str(ir, "  ");
            push_str(ir, splat.as_str());
            push_str(ir, " = shufflevector ");
            push_str(ir, it.as_str());
            push_str(ir, " ");
            push_str(ir, seed.as_str());
            push_str(ir, ", ");
            push_str(ir, it.as_str());
            push_str(ir, " poison, <");
            push_decimal(ir, w as u64);
            push_str(ir, " x i32> zeroinitializer\n");
            push_str(ir, "  ");
            push_str(ir, lanes.as_str());
            push_str(ir, " = add ");
            push_str(ir, it.as_str());
            push_str(ir, " ");
            push_str(ir, splat.as_str());
            push_str(ir, ", <");
            push_str(ir, offsets.as_str());
            push_str(ir, ">\n");
            lanes
        },
    }
}

fn position(mode: Mode, lane: &String, stride: usize, extent: usize, ir: &mut String, counter: &mut usize) -> (r: String)
    requires
        pos_part(mode, lane@, stride, extent, old(ir)@, *old(counter) as int).next <= usize::MAX,
    ensures
        final(ir)@ == pos_part(mode, lane@, stride, extent, old(ir)@, *old(counter) as int).ir,
        *final(counter) == pos_part(mode, lane@, stride, extent, old(ir)@, *old(counter) as int).next,
        r@ == pos_part(mode, lane@, stride, extent, old(ir)@, *old(counter) as int).value,
{
    let it = mode.int_ty();
    if stride == 1 {
        let p = fresh(counter);
        push_str(ir, "  ");
        push_str(ir, p.as_str());
        push_str(ir, " = urem ");
        push_str(ir, it.as_str());
        push_str(ir, " ");
        push_str(ir, lane.as_str());
        push_str(ir, ", ");
        let e = mode.int_splat(extent as u64);
        push_str(ir, e.as_str());
        push_str(ir, "\n");
        p
    } else {
        let q = fresh(counter);
        let p = fresh(counter);
        push_str(ir, "  ");
        push_str(ir, q.as_str());
        push_str(ir, " = udiv ");
        push_str(ir, it.as_str());
        push_str(ir, " ");
        push_str(ir, lane.as_str());
        push_str(ir, ", ");
        let st = mode.int_splat(stride as u64);
        push_str(ir, st.as_str());
        push_str(ir, "\n");
        push_str(ir, "  ");
        push_str(ir, p.as_str());
        push_str(ir, " = urem ");
        push_str(ir, it.as_str());
        push_str(ir, " ");
        push_str(ir, q.as_str());
        push_str(ir, ", ");
        let e = mode.int_splat(extent as u64);
        push_str(ir, e.as_str());
        push_str(ir, "\n");
        p
    }
}

fn push_glyph(s: &mut String, dir: ShiftDir)
    ensures
        final(s)@ == old(s)@ + dir_glyph(dir),
{
    match dir {
        ShiftDir::Positive => push_str(s, "▷"),
        ShiftDir::Negative => push_str(s, "▽"),
    }
}

fn push_label(s: &mut String, axis: Option<usize>)
    ensures
        final(s)@ == old(s)@ + (match axis {
            Some(a) => "axis "@ + decimal(a as nat),
            None => "last axis"@,
        }),
{
    match axis {
        Some(a) => {
            let mut t = String::new();
            push_str(&mut t, "axis ");
            push_decimal(&mut t, a as u64);
            push_str(s, t.as_str());
        },
        None => push_str(s, "last axis"),
    }
}

fn read_at(g: &LlvmCodeGen, mode: Mode, ptr: &String, at: &String, ir: &mut String, counter: &mut usize) -> (r: String)
    requires
        read_cell(g@, mode, ptr@, at@, old(ir)@, *old(counter) as int).next <= usize::MAX,
    ensures
        final(ir)@ == read_cell(g@, mode, ptr@, at@, old(ir)@, *old(counter) as int).ir,
        *final(counter) == read_cell(g@, mode, ptr@, at@, old(ir)@, *old(counter) as int).next,
        read_cell(g@, mode, ptr@, at@, old(ir)@, *old(counter) as int).res == Ok::<Seq<char>, DisruptionV>(r@),
{
    let gep = fresh(counter);
    let val = fresh(counter);
    let ty = mode.ty();
    push_str(ir, "  ");
    push_str(ir, gep.as_str());
    push_str(ir, " = getelementptr inbounds ");
    push_str(ir, g.precision.llvm_type());
    push_str(ir, ", ptr ");
    push_str(ir, ptr.as_str());
    push_str(ir, ", i64 ");
    push_str(ir, at.as_str());
    push_str(ir, "\n");
    push_str(ir, "  ");
    push_str(ir, val.as_str());
    push_str(ir, " = load ");
    push_str(ir, ty.as_str());
    push_str(ir, ", ptr ");
    push_str(ir, gep.as_str());
    push_str(ir, ", align ");
    push_decimal(ir, align(g.precision));
    push_str(ir, "\n");
    val
}

impl LlvmCodeGen {
    /// `▷X` / `▽X` at the cell `idx`: the neighbour along the axis, zero at
    /// the boundary.
    #[verifier::spinoff_prover]
    #[verifier::rlimit(100)]
    #[verifier::spinoff_prover]
    pub fn emit_shift(
        &self,
        operand: &Expr,
        dir: ShiftDir,
        axis: Option<usize>,
        ir: &mut String,
        bufs: &Buffers,
        idx: &String,
        counter: &mut usize,
        mode: Mode,
    ) -> (r: Result<String, HarmonyDisruption>)
        requires
            shift_spec(self@, operand@, dir, axis, bufs@, idx@, mode, old(ir)@, *old(counter) as int).next <= usize::MAX,
        ensures
            final(ir)@ == shift_spec(self@, operand@, dir, axis, bufs@, idx@, mode, old(ir)@, *old(counter) as int).ir,
            *final(counter) == shift_spec(self@, operand@, dir, axis, bufs@, idx@, mode, old(ir)@, *old(counter) as int).next,
            match r {
                Ok(v) => shift_spec(self@, operand@, dir, axis, bufs@, idx@, mode, old(ir)@, *old(counter) as int).res
                    == Ok::<Seq<char>, DisruptionV>(v@),
                Err(d) => shift_spec(self@, operand@, dir, axis, bufs@, idx@, mode, old(ir)@, *old(counter) as int).res
                    == Err::<Seq<char>, DisruptionV>(disruption_view(d)),
            },
    {
        reveal(shift_spec);
        let name = match place_name_of(operand) {
            Some(n) => n,
            None => {
                let mut m = String::new();
                push_glyph(&mut m, dir);
                push_str(
                    &mut m,
                    " is a neighbourhood shift over a declared space, so it cannot be applied to a computed value. Flow the sub-expression into its own space first.",
                );
                return Err(HarmonyDisruption::LoweringErr { detail: m, line: self.current_line });
            },
        };
        let ptr = match self.lookup(bufs, &name) {
            Ok(p) => p,
            Err(d) => return Err(d),
        };
        let shape = self.shape_for(&name);
        if !crate::expansion::shape_fits(shape.as_slice()) {
            let mut m = String::new();
            push_str(&mut m, "a shape whose cells overflow a machine word");
            return Err(HarmonyDisruption::LoweringErr { detail: m, line: self.current_line });
        }
        let (stride, extent) = match crate::ast::axis_geometry(shape.as_slice(), axis) {
            Some(g) => g,
            None => {
                let mut m = String::new();
                push_str(&mut m, "axis ");
                match axis {
                    Some(a) => {
                        let mut t = String::new();
                        push_decimal(&mut t, a as u64);
                        push_str(&mut m, t.as_str());
                    },
                    None => push_str(&mut m, "default"),
                }
                push_str(&mut m, " is out of range for a rank-");
                push_decimal(&mut m, shape.len() as u64);
                push_str(&mut m, " space (shape ");
                crate::text::push_debug_dims(&mut m, shape.as_slice());
                push_str(&mut m, ")");
                return Err(HarmonyDisruption::LoweringErr { detail: m, line: self.current_line });
            },
        };
        let ty = mode.ty();
        if extent <= 1 {
            push_str(ir, "  ; ");
            push_glyph(ir, dir);
            push_str(ir, name.as_str());
            push_str(ir, " along ");
            push_label(ir, axis);
            push_str(ir, ": extent ");
            push_decimal(ir, extent as u64);
            push_str(ir, ", every cell is a boundary\n");
            return Ok(mode.zero());
        }
        push_str(ir, "  ; ");
        push_glyph(ir, dir);
        push_str(ir, name.as_str());
        push_str(ir, " along ");
        push_label(ir, axis);
        push_str(ir, " (stride ");
        push_decimal(ir, stride as u64);
        push_str(ir, ", extent ");
        push_decimal(ir, extent as u64);
        push_str(ir, ")\n");
        let lane = lane_index(mode, idx, ir, counter);
        let pos = position(mode, &lane, stride, extent, ir, counter);
        let at_edge = fresh(counter);
        let edge: u64 = match dir {
            ShiftDir::Positive => 0,
            ShiftDir::Negative => (extent - 1) as u64,
        };
        let base = fresh(counter);
        let it = mode.int_ty();
        push_str(ir, "  ");
        push_str(ir, at_edge.as_str());
        push_str(ir, " = icmp eq ");
        push_str(ir, it.as_str());
        push_str(ir, " ");
        push_str(ir, pos.as_str());
        push_str(ir, ", ");
        let es = mode.int_splat(edge);
        push_str(ir, es.as_str());
        push_str(ir, "\n");
        push_str(ir, "  ");
        push_str(ir, base.as_str());
        match dir {
            ShiftDir::Positive => push_str(ir, " = sub i64 "),
            ShiftDir::Negative => push_str(ir, " = add i64 "),
        }
        push_str(ir, idx.as_str());
        push_str(ir, ", ");
        push_decimal(ir, stride as u64);
        push_str(ir, "\n");
        let zero = mode.zero();
        match mode {
            Mode::Vector(..) => {
                let gep = fresh(counter);
                let val = fresh(counter);
                let out = fresh(counter);
                push_str(ir, "  ");
                push_str(ir, gep.as_str());
                push_str(ir, " = getelementptr inbounds ");
                push_str(ir, self.precision.llvm_type());
                push_str(ir, ", ptr ");
                push_str(ir, ptr.as_str());
                push_str(ir, ", i64 ");
                push_str(ir, base.as_str());
                push_str(ir, "\n");
                push_str(ir, "  ");
                push_str(ir, val.as_str());
                push_str(ir, " = load ");
                push_str(ir, ty.as_str());
                push_str(ir, ", ptr ");
                push_str(ir, gep.as_str());
                push_str(ir, ", align ");
                push_decimal(ir, align(self.precision));
                push_str(ir, "\n");
                push_str(ir, "  ");
                push_str(ir, out.as_str());
                push_str(ir, " = select ");
                let bt = mode.bool_ty();
                push_str(ir, bt.as_str());
                push_str(ir, " ");
                push_str(ir, at_edge.as_str());
                push_str(ir, ", ");
                push_str(ir, ty.as_str());
                push_str(ir, " ");
                push_str(ir, zero.as_str());
                push_str(ir, ", ");
                push_str(ir, ty.as_str());
                push_str(ir, " ");
                push_str(ir, val.as_str());
                push_str(ir, "\n");
                Ok(out)
            },
            Mode::Scalar(_) => {
                let past_end = fresh(counter);
                let skip = fresh(counter);
                let clamped = fresh(counter);
                let gep = fresh(counter);
                let val = fresh(counter);
                let out = fresh(counter);
                push_str(ir, "  ");
                push_str(ir, past_end.as_str());
                push_str(ir, " = icmp uge i64 ");
                push_str(ir, base.as_str());
                push_str(ir, ", ");
                push_str(ir, bufs.bound.as_str());
                push_str(ir, "\n");
                push_str(ir, "  ");
                push_str(ir, skip.as_str());
                push_str(ir, " = or i1 ");
                push_str(ir, at_edge.as_str());
                push_str(ir, ", ");
                push_str(ir, past_end.as_str());
                push_str(ir, "\n");
                push_str(ir, "  ");
                push_str(ir, clamped.as_str());
                push_str(ir, " = select i1 ");
                push_str(ir, skip.as_str());
                push_str(ir, ", i64 0, i64 ");
                push_str(ir, base.as_str());
                push_str(ir, "\n");
                push_str(ir, "  ; boundary or past the sweep -> 0\n");
                push_str(ir, "  ");
                push_str(ir, gep.as_str());
                push_str(ir, " = getelementptr inbounds ");
                push_str(ir, self.precision.llvm_type());
                push_str(ir, ", ptr ");
                push_str(ir, ptr.as_str());
                push_str(ir, ", i64 ");
                push_str(ir, clamped.as_str());
                push_str(ir, "\n");
                push_str(ir, "  ");
                push_str(ir, val.as_str());
                push_str(ir, " = load ");
                push_str(ir, ty.as_str());
                push_str(ir, ", ptr ");
                push_str(ir, gep.as_str());
                push_str(ir, ", align ");
                push_decimal(ir, align(self.precision));
                push_str(ir, "\n");
                push_str(ir, "  ");
                push_str(ir, out.as_str());
                push_str(ir, " = select i1 ");
                push_str(ir, skip.as_str());
                push_str(ir, ", ");
                push_str(ir, ty.as_str());
                push_str(ir, " ");
                push_str(ir, zero.as_str());
                push_str(ir, ", ");
                push_str(ir, ty.as_str());
                push_str(ir, " ");
                push_str(ir, val.as_str());
                push_str(ir, "\n");
                Ok(out)
            },
        }
    }
}

fn emit_integer_power(base: &String, n: i32, ir: &mut String, counter: &mut usize, mode: Mode, out: &String)
    requires
        -64 <= n <= 64,
        integer_power(mode, base@, n as int, out@, old(ir)@, *old(counter) as int).next <= usize::MAX,
    ensures
        final(ir)@ == integer_power(mode, base@, n as int, out@, old(ir)@, *old(counter) as int).ir,
        *final(counter) == integer_power(mode, base@, n as int, out@, old(ir)@, *old(counter) as int).next,
{
    let ty = mode.ty();
    if n == 0 {
        push_str(ir, "  ");
        push_str(ir, out.as_str());
        push_str(ir, " = fadd ");
        push_str(ir, ty.as_str());
        push_str(ir, " ");
        let z = mode.zero();
        push_str(ir, z.as_str());
        push_str(ir, ", ");
        let one_text = splat(mode, 0x3FF0000000000000u64);
        push_str(ir, one_text.as_str());
        push_str(ir, "\n");
        return;
    }
    let steps: u32 = if n < 0 {
        (-n - 1) as u32
    } else {
        (n - 1) as u32
    };
    let ghost ir0 = ir@;
    let ghost c0 = *counter as int;
    proof {
        lemma_pow_grows(mode, base@, steps as nat, ir0, c0);
    }
    let mut acc = base.clone();
    let mut k: u32 = 0;
    while k < steps
        invariant
            k <= steps,
            pow_steps(mode, base@, k as nat, ir0, c0) == (Step { value: acc@, ir: ir@, next: *counter as int }),
            pow_steps(mode, base@, steps as nat, ir0, c0).next <= usize::MAX,
            ty@ == ty_text(mode),
        decreases steps - k,
    {
        proof {
            lemma_pow_mono(mode, base@, (k + 1) as nat, steps as nat, ir0, c0);
        }
        let next = fresh(counter);
        push_str(ir, "  ");
        push_str(ir, next.as_str());
        push_str(ir, " = fmul ");
        push_str(ir, ty.as_str());
        push_str(ir, " ");
        push_str(ir, acc.as_str());
        push_str(ir, ", ");
        push_str(ir, base.as_str());
        push_str(ir, "\n");
        acc = next;
        k = k + 1;
    }
    push_str(ir, "  ");
    push_str(ir, out.as_str());
    if n < 0 {
        push_str(ir, " = fdiv ");
        push_str(ir, ty.as_str());
        push_str(ir, " ");
        let one_text = splat(mode, 0x3FF0000000000000u64);
        push_str(ir, one_text.as_str());
        push_str(ir, ", ");
    } else {
        push_str(ir, " = fadd ");
        push_str(ir, ty.as_str());
        push_str(ir, " ");
        let z = mode.zero();
        push_str(ir, z.as_str());
        push_str(ir, ", ");
    }
    push_str(ir, acc.as_str());
    push_str(ir, "\n");
}

proof fn lemma_pow_mono(mode: Mode, base: Seq<char>, k: nat, n: nat, ir: Seq<char>, c: int)
    requires
        k <= n,
    ensures
        pow_steps(mode, base, k, ir, c).next <= pow_steps(mode, base, n, ir, c).next,
    decreases n,
{
    if k < n {
        lemma_pow_mono(mode, base, k, (n - 1) as nat, ir, c);
    }
}

fn predicate(op: BinaryOpKind) -> (r: Option<&'static str>)
    ensures
        match r {
            Some(t) => predicate_of(op) == Some(t@),
            None => predicate_of(op) is None,
        },
{
    match op {
        BinaryOpKind::Gt => Some("ogt"),
        BinaryOpKind::Lt => Some("olt"),
        BinaryOpKind::Gte => Some("oge"),
        BinaryOpKind::Lte => Some("ole"),
        BinaryOpKind::Eq => Some("oeq"),
        _ => None,
    }
}

fn arith(op: BinaryOpKind) -> (r: Option<&'static str>)
    ensures
        match r {
            Some(t) => arith_of(op) == Some(t@),
            None => arith_of(op) is None,
        },
{
    match op {
        BinaryOpKind::Add => Some("fadd"),
        BinaryOpKind::Sub => Some("fsub"),
        BinaryOpKind::Mul => Some("fmul"),
        BinaryOpKind::Div => Some("fdiv"),
        _ => None,
    }
}

fn intrinsic_name(op: BuiltinOp) -> (r: Option<&'static str>)
    ensures
        match r {
            Some(t) => builtin_intrinsic(op) == Some(t@),
            None => builtin_intrinsic(op) is None,
        },
{
    match op {
        BuiltinOp::Abs => Some("fabs"),
        BuiltinOp::Exp => Some("exp"),
        BuiltinOp::Log => Some("log"),
        BuiltinOp::Sqrt => Some("sqrt"),
        BuiltinOp::Sin => Some("sin"),
        BuiltinOp::Cos => Some("cos"),
        _ => None,
    }
}

fn unlowered(e: &Expr, line: usize) -> (r: HarmonyDisruption)
    ensures
        disruption_view(r) == not_lowered(unlowered_name(e@), line),
{
    let mut m = String::new();
    match e {
        Expr::Rotate { .. } | Expr::Reverse { .. } => push_str(&mut m, "a rotation or reversal"),
        Expr::Reshape { .. } | Expr::Transpose { .. } => push_str(&mut m, "a reshape or transpose"),
        Expr::Take { .. } | Expr::Drop { .. } => push_str(&mut m, "a take or drop"),
        Expr::Index { .. } => push_str(&mut m, "a coordinate (`⍳`)"),
        Expr::Call { name, .. } => {
            push_str(&mut m, "the call to `");
            push_str(&mut m, name.as_str());
            push_str(&mut m, "`, which was not expanded");
        },
        Expr::Builtin { .. } => push_str(&mut m, "the floor, the ceiling and the roll"),
        _ => push_str(&mut m, "the greater, the lesser and the residue"),
    }
    push_str(&mut m, " is not in the LLVM subset");
    proof {
        assert(m@ =~= unlowered_name(e@) + " is not in the LLVM subset"@);
    }
    HarmonyDisruption::LoweringErr { detail: m, line }
}

impl LlvmCodeGen {
    /// The value of `e` at the cell `idx` of a sweep over `result_shape`,
    /// with the enclosing lifts' axes `lifts`: the instructions that compute
    /// it are appended to `ir`, each new value under a fresh name.
    #[verifier::spinoff_prover]
    #[verifier::rlimit(40)]
    #[verifier::spinoff_prover]
    pub fn emit_expr(
        &self,
        e: &Expr,
        ir: &mut String,
        bufs: &Buffers,
        idx: &String,
        counter: &mut usize,
        mode: Mode,
        result_shape: &Vec<usize>,
        lifts: &Vec<usize>,
    ) -> (r: Result<String, HarmonyDisruption>)
        requires
            emit_spec(self@, e@, bufs@, idx@, mode, result_shape@, lifts@, old(ir)@, *old(counter) as int).next <= usize::MAX,
        ensures
            final(ir)@ == emit_spec(self@, e@, bufs@, idx@, mode, result_shape@, lifts@, old(ir)@, *old(counter) as int).ir,
            *final(counter) == emit_spec(self@, e@, bufs@, idx@, mode, result_shape@, lifts@, old(ir)@, *old(counter) as int).next,
            match r {
                Ok(v) => emit_spec(self@, e@, bufs@, idx@, mode, result_shape@, lifts@, old(ir)@, *old(counter) as int).res
                    == Ok::<Seq<char>, DisruptionV>(v@),
                Err(d) => emit_spec(self@, e@, bufs@, idx@, mode, result_shape@, lifts@, old(ir)@, *old(counter) as int).res
                    == Err::<Seq<char>, DisruptionV>(disruption_view(d)),
            },
        decreases e, 3usize,
    {
        match e {
            Expr::Number(t) => match self.numbers.get(t) {
                Some(bits) => Ok(splat(mode, bits)),
                None => {
                    let mut m = String::new();
                    push_str(&mut m, "no bits were given for the literal `");
                    push_str(&mut m, t.as_str());
                    push_str(&mut m, "`");
                    Err(HarmonyDisruption::LoweringErr { detail: m, line: self.current_line })
                },
            },
            Expr::Var(_) => self.emit_read_space(e, ir, bufs, idx, counter, mode, result_shape, lifts),
            Expr::AuditTrace(inner) => self.emit_expr(inner, ir, bufs, idx, counter, mode, result_shape, lifts),
            Expr::Builtin { op: BuiltinOp::Indicator, .. } => self.emit_indicator(
                e,
                ir,
                bufs,
                idx,
                counter,
                mode,
                result_shape,
                lifts,
            ),
            Expr::Builtin { .. } => self.emit_builtin(e, ir, bufs, idx, counter, mode, result_shape, lifts),
            Expr::Lift { axis, operand } => {
                let mut nested = crate::ast::copy_dims(lifts.as_slice());
                nested.push(*axis);
                assert(nested@ =~= lifts@.push(*axis));
                self.emit_expr(operand, ir, bufs, idx, counter, mode, result_shape, &nested)
            },
            Expr::Shift { dir, axis, operand } => self.emit_shift(operand, *dir, *axis, ir, bufs, idx, counter, mode),
            Expr::Reduce { .. } | Expr::Scan { .. } => self.emit_fold_read(
                e,
                ir,
                bufs,
                idx,
                counter,
                mode,
                result_shape,
                lifts,
            ),
            Expr::BinaryOp { .. } => self.emit_binary(e, ir, bufs, idx, counter, mode, result_shape, lifts),
            _ => Err(unlowered(e, self.current_line)),
        }
    }

    fn emit_read_space(
        &self,
        e: &Expr,
        ir: &mut String,
        bufs: &Buffers,
        idx: &String,
        counter: &mut usize,
        mode: Mode,
        result_shape: &Vec<usize>,
        lifts: &Vec<usize>,
    ) -> (r: Result<String, HarmonyDisruption>)
        requires
            var_spec(self@, e@, bufs@, idx@, mode, result_shape@, lifts@, old(ir)@, *old(counter) as int).next <= usize::MAX,
            e is Var,
        ensures
            final(ir)@ == var_spec(self@, e@, bufs@, idx@, mode, result_shape@, lifts@, old(ir)@, *old(counter) as int).ir,
            *final(counter) == var_spec(self@, e@, bufs@, idx@, mode, result_shape@, lifts@, old(ir)@, *old(counter) as int).next,
            match r {
                Ok(v) => var_spec(self@, e@, bufs@, idx@, mode, result_shape@, lifts@, old(ir)@, *old(counter) as int).res
                    == Ok::<Seq<char>, DisruptionV>(v@),
                Err(d) => var_spec(self@, e@, bufs@, idx@, mode, result_shape@, lifts@, old(ir)@, *old(counter) as int).res
                    == Err::<Seq<char>, DisruptionV>(disruption_view(d)),
            },
        decreases e, 2usize,
    {
        reveal(var_spec);
        let n = match e {
            Expr::Var(n) => n,
            _ => return Err(unlowered(e, self.current_line)),
        };
        let cs = crate::text::chars_of(n.as_str());
        if crate::text::is_tau(cs.as_slice()) {
            return Ok(splat(mode, self.tau));
        }
        let ptr = match self.lookup(bufs, n) {
            Ok(p) => p,
            Err(d) => return Err(d),
        };
        let shape = self.shape_for(n);
        let view = lifted(shape.as_slice(), lifts.as_slice());
        proof {
            lemma_index_map_grows(self@.line, idx@, view@, result_shape@, ir@, *counter as int);
        }
        let at = match self.emit_index_map(ir, idx, &view, result_shape, counter) {
            Ok(a) => a,
            Err(d) => return Err(d),
        };
        Ok(read_at(self, mode, &ptr, &at, ir, counter))
    }

    fn emit_fold_read(
        &self,
        e: &Expr,
        ir: &mut String,
        bufs: &Buffers,
        idx: &String,
        counter: &mut usize,
        mode: Mode,
        result_shape: &Vec<usize>,
        lifts: &Vec<usize>,
    ) -> (r: Result<String, HarmonyDisruption>)
        requires
            fold_spec(self@, e@, bufs@, idx@, mode, result_shape@, lifts@, old(ir)@, *old(counter) as int).next <= usize::MAX,
            e is Reduce || e is Scan,
        ensures
            final(ir)@ == fold_spec(self@, e@, bufs@, idx@, mode, result_shape@, lifts@, old(ir)@, *old(counter) as int).ir,
            *final(counter) == fold_spec(self@, e@, bufs@, idx@, mode, result_shape@, lifts@, old(ir)@, *old(counter) as int).next,
            match r {
                Ok(v) => fold_spec(self@, e@, bufs@, idx@, mode, result_shape@, lifts@, old(ir)@, *old(counter) as int).res
                    == Ok::<Seq<char>, DisruptionV>(v@),
                Err(d) => fold_spec(self@, e@, bufs@, idx@, mode, result_shape@, lifts@, old(ir)@, *old(counter) as int).res
                    == Err::<Seq<char>, DisruptionV>(disruption_view(d)),
            },
        decreases e, 2usize,
    {
        reveal(fold_spec);
        let key = crate::symbolic::expr_glyphs(e);
        let ptr = match pair_get(&bufs.folds, &key) {
            Some(p) => p,
            None => {
                let mut m = String::new();
                push_str(&mut m, "a fold was not precomputed before the sweep that reads it");
                return Err(HarmonyDisruption::LoweringErr { detail: m, line: self.current_line });
            },
        };
        let shape = self.precomputed_shape(e);
        let view = lifted(shape.as_slice(), lifts.as_slice());
        proof {
            lemma_index_map_grows(self@.line, idx@, view@, result_shape@, ir@, *counter as int);
        }
        let at = match self.emit_index_map(ir, idx, &view, result_shape, counter) {
            Ok(a) => a,
            Err(d) => return Err(d),
        };
        Ok(read_at(self, mode, &ptr, &at, ir, counter))
    }

    fn emit_builtin(
        &self,
        e: &Expr,
        ir: &mut String,
        bufs: &Buffers,
        idx: &String,
        counter: &mut usize,
        mode: Mode,
        result_shape: &Vec<usize>,
        lifts: &Vec<usize>,
    ) -> (r: Result<String, HarmonyDisruption>)
        requires
            builtin_spec(self@, e@, bufs@, idx@, mode, result_shape@, lifts@, old(ir)@, *old(counter) as int).next <= usize::MAX,
            e is Builtin,
            !(e matches Expr::Builtin { op: BuiltinOp::Indicator, .. }),
        ensures
            final(ir)@ == builtin_spec(self@, e@, bufs@, idx@, mode, result_shape@, lifts@, old(ir)@, *old(counter) as int).ir,
            *final(counter) == builtin_spec(self@, e@, bufs@, idx@, mode, result_shape@, lifts@, old(ir)@, *old(counter) as int).next,
            match r {
                Ok(v) => builtin_spec(self@, e@, bufs@, idx@, mode, result_shape@, lifts@, old(ir)@, *old(counter) as int).res
                    == Ok::<Seq<char>, DisruptionV>(v@),
                Err(d) => builtin_spec(self@, e@, bufs@, idx@, mode, result_shape@, lifts@, old(ir)@, *old(counter) as int).res
                    == Err::<Seq<char>, DisruptionV>(disruption_view(d)),
            },
        decreases e, 2usize,
    {
            let (op, operand) = match e {
            Expr::Builtin { op, operand } => (*op, operand),
            _ => return Err(unlowered(e, self.current_line)),
        };
        let name = match intrinsic_name(op) {
            Some(n) => n,
            None => return Err(unlowered(e, self.current_line)),
        };
        proof {
            lemma_emit_grows(self@, operand@, bufs@, idx@, mode, result_shape@, lifts@, ir@, *counter as int);
        }
        let x = match self.emit_expr(operand, ir, bufs, idx, counter, mode, result_shape, lifts) {
            Ok(v) => v,
            Err(d) => return Err(d),
        };
        let out = fresh(counter);
        let ty = mode.ty();
        push_str(ir, "  ");
        push_str(ir, out.as_str());
        push_str(ir, " = call ");
        push_str(ir, ty.as_str());
        push_str(ir, " ");
        let f = mode.unary_intrinsic(name);
        push_str(ir, f.as_str());
        push_str(ir, "(");
        push_str(ir, ty.as_str());
        push_str(ir, " ");
        push_str(ir, x.as_str());
        push_str(ir, ")\n");
        Ok(out)
    }

    fn push_nonzero(&self, value: &String, ir: &mut String, counter: &mut usize, mode: Mode) -> (r: String)
        requires
            *old(counter) < usize::MAX,
        ensures
            *final(counter) == *old(counter) + 1,
            r@ == vname(*old(counter) + 1),
            final(ir)@ == old(ir)@ + "  "@ + vname(*old(counter) + 1) + " = fcmp une "@ + ty_text(mode) + " "@ + value@
                + ", "@ + zero_text(mode) + "\n"@,
    {
        let flag = fresh(counter);
        let ty = mode.ty();
        let z = mode.zero();
        push_str(ir, "  ");
        push_str(ir, flag.as_str());
        push_str(ir, " = fcmp une ");
        push_str(ir, ty.as_str());
        push_str(ir, " ");
        push_str(ir, value.as_str());
        push_str(ir, ", ");
        push_str(ir, z.as_str());
        push_str(ir, "\n");
        flag
    }

    #[verifier::spinoff_prover]
    #[verifier::rlimit(80)]
    fn emit_compare(
        &self,
        e: &Expr,
        ir: &mut String,
        bufs: &Buffers,
        idx: &String,
        counter: &mut usize,
        mode: Mode,
        result_shape: &Vec<usize>,
        lifts: &Vec<usize>,
    ) -> (r: Result<String, HarmonyDisruption>)
        requires
            compare_spec(self@, e@, bufs@, idx@, mode, result_shape@, lifts@, old(ir)@, *old(counter) as int).next <= usize::MAX,
        ensures
            final(ir)@ == compare_spec(self@, e@, bufs@, idx@, mode, result_shape@, lifts@, old(ir)@, *old(counter) as int).ir,
            *final(counter) == compare_spec(self@, e@, bufs@, idx@, mode, result_shape@, lifts@, old(ir)@, *old(counter) as int).next,
            match r {
                Ok(v) => compare_spec(self@, e@, bufs@, idx@, mode, result_shape@, lifts@, old(ir)@, *old(counter) as int).res
                    == Ok::<Seq<char>, DisruptionV>(v@),
                Err(d) => compare_spec(self@, e@, bufs@, idx@, mode, result_shape@, lifts@, old(ir)@, *old(counter) as int).res
                    == Err::<Seq<char>, DisruptionV>(disruption_view(d)),
            },
        decreases e, 0usize,
    {
        match e {
            Expr::Builtin { op: bop, operand } => match &**operand {
                Expr::BinaryOp { op, lhs, rhs } => match predicate(*op) {
                    Some(pred) => {
                        assert(e@ == ExprV::Builtin {
                            op: *bop,
                            operand: Box::new(ExprV::BinaryOp { op: *op, lhs: Box::new(lhs@), rhs: Box::new(rhs@) }),
                        });
                        proof {
                            lemma_emit_grows(self@, lhs@, bufs@, idx@, mode, result_shape@, lifts@, ir@, *counter as int);
                            let l = emit_spec(self@, lhs@, bufs@, idx@, mode, result_shape@, lifts@, ir@, *counter as int);
                            lemma_emit_grows(self@, rhs@, bufs@, idx@, mode, result_shape@, lifts@, l.ir, l.next);
                        }
                        let l = match self.emit_expr(lhs, ir, bufs, idx, counter, mode, result_shape, lifts) {
                            Ok(v) => v,
                            Err(d) => return Err(d),
                        };
                        let r = match self.emit_expr(rhs, ir, bufs, idx, counter, mode, result_shape, lifts) {
                            Ok(v) => v,
                            Err(d) => return Err(d),
                        };
                        let ty = mode.ty();
                        let f = fresh(counter);
                        push_str(ir, "  ");
                        push_str(ir, f.as_str());
                        push_str(ir, " = fcmp ");
                        push_str(ir, pred);
                        push_str(ir, " ");
                        push_str(ir, ty.as_str());
                        push_str(ir, " ");
                        push_str(ir, l.as_str());
                        push_str(ir, ", ");
                        push_str(ir, r.as_str());
                        push_str(ir, "\n");
                        Ok(f)
                    },
                    None => {
                    assert(expr_view(**operand) == ExprV::BinaryOp { op: *op, lhs: Box::new(lhs@), rhs: Box::new(rhs@) });
                    Err(unlowered(e, self.current_line))
                },
                },
                _ => {
                    assert(!(expr_view(**operand) is BinaryOp));
                    Err(unlowered(e, self.current_line))
                },
            },
            _ => Err(unlowered(e, self.current_line)),
        }
    }

    fn is_comparison(e: &Expr) -> (r: bool)
        ensures
            r == compares(e@),
    {
        match e {
            Expr::Builtin { operand, .. } => match &**operand {
                Expr::BinaryOp { op, lhs, rhs } => {
                    assert(expr_view(**operand) == ExprV::BinaryOp { op: *op, lhs: Box::new(lhs@), rhs: Box::new(rhs@) });
                    predicate(*op).is_some()
                },
                _ => {
                    assert(!(expr_view(**operand) is BinaryOp));
                    false
                },
            },
            _ => false,
        }
    }

    #[verifier::spinoff_prover]
    fn emit_flag(
        &self,
        e: &Expr,
        ir: &mut String,
        bufs: &Buffers,
        idx: &String,
        counter: &mut usize,
        mode: Mode,
        result_shape: &Vec<usize>,
        lifts: &Vec<usize>,
    ) -> (r: Result<String, HarmonyDisruption>)
        requires
            flag_spec(self@, e@, bufs@, idx@, mode, result_shape@, lifts@, old(ir)@, *old(counter) as int).next <= usize::MAX,
            e is Builtin,
        ensures
            final(ir)@ == flag_spec(self@, e@, bufs@, idx@, mode, result_shape@, lifts@, old(ir)@, *old(counter) as int).ir,
            *final(counter) == flag_spec(self@, e@, bufs@, idx@, mode, result_shape@, lifts@, old(ir)@, *old(counter) as int).next,
            match r {
                Ok(v) => flag_spec(self@, e@, bufs@, idx@, mode, result_shape@, lifts@, old(ir)@, *old(counter) as int).res
                    == Ok::<Seq<char>, DisruptionV>(v@),
                Err(d) => flag_spec(self@, e@, bufs@, idx@, mode, result_shape@, lifts@, old(ir)@, *old(counter) as int).res
                    == Err::<Seq<char>, DisruptionV>(disruption_view(d)),
            },
        decreases e, 1usize,
    {
        if Self::is_comparison(e) {
            return self.emit_compare(e, ir, bufs, idx, counter, mode, result_shape, lifts);
        }
        let operand = match e {
            Expr::Builtin { operand, .. } => operand,
            _ => return Err(unlowered(e, self.current_line)),
        };
        proof {
            lemma_emit_grows(self@, operand@, bufs@, idx@, mode, result_shape@, lifts@, ir@, *counter as int);
        }
        let v = match self.emit_expr(operand, ir, bufs, idx, counter, mode, result_shape, lifts) {
            Ok(v) => v,
            Err(d) => return Err(d),
        };
        Ok(self.push_nonzero(&v, ir, counter, mode))
    }

    fn emit_indicator(
        &self,
        e: &Expr,
        ir: &mut String,
        bufs: &Buffers,
        idx: &String,
        counter: &mut usize,
        mode: Mode,
        result_shape: &Vec<usize>,
        lifts: &Vec<usize>,
    ) -> (r: Result<String, HarmonyDisruption>)
        requires
            indicator_spec(self@, e@, bufs@, idx@, mode, result_shape@, lifts@, old(ir)@, *old(counter) as int).next <= usize::MAX,
            e is Builtin,
        ensures
            final(ir)@ == indicator_spec(self@, e@, bufs@, idx@, mode, result_shape@, lifts@, old(ir)@, *old(counter) as int).ir,
            *final(counter) == indicator_spec(self@, e@, bufs@, idx@, mode, result_shape@, lifts@, old(ir)@, *old(counter) as int).next,
            match r {
                Ok(v) => indicator_spec(self@, e@, bufs@, idx@, mode, result_shape@, lifts@, old(ir)@, *old(counter) as int).res
                    == Ok::<Seq<char>, DisruptionV>(v@),
                Err(d) => indicator_spec(self@, e@, bufs@, idx@, mode, result_shape@, lifts@, old(ir)@, *old(counter) as int).res
                    == Err::<Seq<char>, DisruptionV>(disruption_view(d)),
            },
        decreases e, 2usize,
    {
            proof {
            lemma_flag_grows(self@, e@, bufs@, idx@, mode, result_shape@, lifts@, ir@, *counter + 1);
        }
        let out = fresh(counter);
        let flag = match self.emit_flag(e, ir, bufs, idx, counter, mode, result_shape, lifts) {
            Ok(f) => f,
            Err(d) => return Err(d),
        };
        let ty = mode.ty();
        push_str(ir, "  ");
        push_str(ir, out.as_str());
        push_str(ir, " = select ");
        let bt = mode.bool_ty();
        push_str(ir, bt.as_str());
        push_str(ir, " ");
        push_str(ir, flag.as_str());
        push_str(ir, ", ");
        push_str(ir, ty.as_str());
        push_str(ir, " ");
        let one_text = splat(mode, 0x3FF0000000000000u64);
        push_str(ir, one_text.as_str());
        push_str(ir, ", ");
        push_str(ir, ty.as_str());
        push_str(ir, " ");
        let z = mode.zero();
        push_str(ir, z.as_str());
        push_str(ir, "\n");
        Ok(out)
    }

    fn emit_binary(
        &self,
        e: &Expr,
        ir: &mut String,
        bufs: &Buffers,
        idx: &String,
        counter: &mut usize,
        mode: Mode,
        result_shape: &Vec<usize>,
        lifts: &Vec<usize>,
    ) -> (r: Result<String, HarmonyDisruption>)
        requires
            binary_spec(self@, e@, bufs@, idx@, mode, result_shape@, lifts@, old(ir)@, *old(counter) as int).next <= usize::MAX,
            e is BinaryOp,
        ensures
            final(ir)@ == binary_spec(self@, e@, bufs@, idx@, mode, result_shape@, lifts@, old(ir)@, *old(counter) as int).ir,
            *final(counter) == binary_spec(self@, e@, bufs@, idx@, mode, result_shape@, lifts@, old(ir)@, *old(counter) as int).next,
            match r {
                Ok(v) => binary_spec(self@, e@, bufs@, idx@, mode, result_shape@, lifts@, old(ir)@, *old(counter) as int).res
                    == Ok::<Seq<char>, DisruptionV>(v@),
                Err(d) => binary_spec(self@, e@, bufs@, idx@, mode, result_shape@, lifts@, old(ir)@, *old(counter) as int).res
                    == Err::<Seq<char>, DisruptionV>(disruption_view(d)),
            },
        decreases e, 2usize,
    {
            let (op, lhs, rhs) = match e {
            Expr::BinaryOp { op, lhs, rhs } => (*op, lhs, rhs),
            _ => return Err(unlowered(e, self.current_line)),
        };
        match op {
            BinaryOpKind::Max | BinaryOpKind::Min | BinaryOpKind::Residue => return Err(unlowered(e, self.current_line)),
            _ => {},
        }
        let ghost c0 = *counter as int;
        let ghost ir0 = ir@;
        proof {
            lemma_emit_grows(self@, lhs@, bufs@, idx@, mode, result_shape@, lifts@, ir0, c0);
            let ls = emit_spec(self@, lhs@, bufs@, idx@, mode, result_shape@, lifts@, ir0, c0);
            lemma_emit_grows(self@, rhs@, bufs@, idx@, mode, result_shape@, lifts@, ls.ir, ls.next);
            let rs = emit_spec(self@, rhs@, bufs@, idx@, mode, result_shape@, lifts@, ls.ir, ls.next);
            if let Ok(lv) = ls.res {
                if let Some(n) = whole_exponent_of(rhs@) {
                    lemma_power_grows(mode, lv, n, vname(rs.next + 1), rs.ir, rs.next + 1);
                }
            }
        }
        let l = match self.emit_expr(lhs, ir, bufs, idx, counter, mode, result_shape, lifts) {
            Ok(v) => v,
            Err(d) => return Err(d),
        };
        let r = match self.emit_expr(rhs, ir, bufs, idx, counter, mode, result_shape, lifts) {
            Ok(v) => v,
            Err(d) => return Err(d),
        };
        let out = fresh(counter);
        let ty = mode.ty();
        match arith(op) {
            Some(inst) => {
                push_str(ir, "  ");
                push_str(ir, out.as_str());
                push_str(ir, " = ");
                push_str(ir, inst);
                push_str(ir, " ");
                push_str(ir, ty.as_str());
                push_str(ir, " ");
                push_str(ir, l.as_str());
                push_str(ir, ", ");
                push_str(ir, r.as_str());
                push_str(ir, "\n");
                return Ok(out);
            },
            None => {},
        }
        match predicate(op) {
            Some(pred) => {
                let flag = fresh(counter);
                push_str(ir, "  ");
                push_str(ir, flag.as_str());
                push_str(ir, " = fcmp ");
                push_str(ir, pred);
                push_str(ir, " ");
                push_str(ir, ty.as_str());
                push_str(ir, " ");
                push_str(ir, l.as_str());
                push_str(ir, ", ");
                push_str(ir, r.as_str());
                push_str(ir, "\n");
                push_str(ir, "  ");
                push_str(ir, out.as_str());
                push_str(ir, " = select ");
                let bt = mode.bool_ty();
                push_str(ir, bt.as_str());
                push_str(ir, " ");
                push_str(ir, flag.as_str());
                push_str(ir, ", ");
                push_str(ir, ty.as_str());
                push_str(ir, " ");
                push_str(ir, l.as_str());
                push_str(ir, ", ");
                push_str(ir, ty.as_str());
                push_str(ir, " ");
                let z = mode.zero();
                push_str(ir, z.as_str());
                push_str(ir, "\n");
                return Ok(out);
            },
            None => {},
        }
        match crate::ast::whole_exponent(rhs) {
            Some(n) => {
                emit_integer_power(&l, n, ir, counter, mode, &out);
            },
            None => {
                push_str(ir, "  ");
                push_str(ir, out.as_str());
                push_str(ir, " = call ");
                push_str(ir, ty.as_str());
                push_str(ir, " ");
                let p = mode.pow_intrinsic();
                push_str(ir, p.as_str());
                push_str(ir, "(");
                push_str(ir, ty.as_str());
                push_str(ir, " ");
                push_str(ir, l.as_str());
                push_str(ir, ", ");
                push_str(ir, ty.as_str());
                push_str(ir, " ");
                push_str(ir, r.as_str());
                push_str(ir, ")\n");
            },
        }
        Ok(out)
    }
}

// ---------------------------------------------------------------- scratch, sweeps and folds

/// One end of a sweep: a number of cells, or the i64 a bounded call passes.
pub enum Limit {
    Cells(u64),
    Symbol(String),
}

/// One end of a sweep, as a number or as a symbol's text.
pub enum LimitV {
    Cells(u64),
    Symbol(Seq<char>),
}

impl View for Limit {
    type V = LimitV;

    open spec fn view(&self) -> LimitV {
        match self {
            Limit::Cells(n) => LimitV::Cells(*n),
            Limit::Symbol(t) => LimitV::Symbol(t@),
        }
    }
}

pub open spec fn limit_text(l: LimitV) -> Seq<char> {
    match l {
        LimitV::Cells(n) => decimal(n as nat),
        LimitV::Symbol(t) => t,
    }
}

fn push_limit(s: &mut String, l: &Limit)
    ensures
        final(s)@ == old(s)@ + limit_text(l@),
{
    match l {
        Limit::Cells(n) => push_decimal(s, *n),
        Limit::Symbol(t) => push_str(s, t.as_str()),
    }
}

/// Memory the kernel owns for the length of a call: on the stack up to
/// 64 KiB of cells, else from `malloc`, to be freed on return.
pub open spec fn scratch_spec(g: GenV, label: Seq<char>, count: usize, ir: Seq<char>, heap: Seq<Seq<char>>) -> (
    Seq<char>,
    Seq<char>,
    Seq<Seq<char>>,
) {
    let n: nat = if count == 0 {
        1
    } else {
        count as nat
    };
    let sym = "%"@ + label;
    if n > 8192 {
        (
            sym,
            ir + "  ; ["@ + label + "] "@ + decimal(n) + " cells -> heap\n"@ + "  "@ + sym + " = call ptr @malloc(i64 "@
                + decimal(n * align_of(g.precision)) + ")\n"@,
            heap.push(sym),
        )
    } else {
        (
            sym,
            ir + "  ; ["@ + label + "] "@ + decimal(n) + " cells -> stack\n"@ + "  "@ + sym + " = alloca ["@ + decimal(n)
                + " x "@ + element_type(g.precision) + "], align 64\n"@,
            heap,
        )
    }
}

impl LlvmCodeGen {
    pub(crate) fn emit_scratch(&self, ir: &mut String, label: &String, count: usize, heap: &mut Vec<String>) -> (r: String)
        ensures
            ({
                let s = scratch_spec(self@, label@, count, old(ir)@, old(heap)@.map_values(|h: String| h@));
                &&& r@ == s.0
                &&& final(ir)@ == s.1
                &&& final(heap)@.map_values(|h: String| h@) == s.2
            }),
    {
        let n: usize = if count == 0 {
            1
        } else {
            count
        };
        let mut sym = String::new();
        push_str(&mut sym, "%");
        push_str(&mut sym, label.as_str());
        if n > 8192 {
            push_str(ir, "  ; [");
            push_str(ir, label.as_str());
            push_str(ir, "] ");
            push_decimal(ir, n as u64);
            push_str(ir, " cells -> heap\n");
            push_str(ir, "  ");
            push_str(ir, sym.as_str());
            push_str(ir, " = call ptr @malloc(i64 ");
            let al = align(self.precision);
            assert((n as u128) * (al as u128) <= 0xFFFF_FFFF_FFFF_FFFFu128 * 8) by (nonlinear_arith)
                requires
                    n <= 0xFFFF_FFFF_FFFF_FFFFu128,
                    al <= 8,
            ;
            crate::text::push_wide(ir, (n as u128) * (al as u128));
            push_str(ir, ")\n");
            heap.push(sym.clone());
            proof {
                assert(heap@.map_values(|h: String| h@) =~= old(heap)@.map_values(|h: String| h@).push(sym@));
            }
        } else {
            push_str(ir, "  ; [");
            push_str(ir, label.as_str());
            push_str(ir, "] ");
            push_decimal(ir, n as u64);
            push_str(ir, " cells -> stack\n");
            push_str(ir, "  ");
            push_str(ir, sym.as_str());
            push_str(ir, " = alloca [");
            push_decimal(ir, n as u64);
            push_str(ir, " x ");
            push_str(ir, self.precision.llvm_type());
            push_str(ir, "], align 64\n");
        }
        sym
    }
}

/// One loop over `[lo, hi)`, a lane or a vector of lanes a step, storing
/// the expression's value into the target: the label control lands on after
/// it. A range known to be empty is no loop at all.
#[verifier::opaque]
pub open spec fn range_spec(
    g: GenV,
    label: Seq<char>,
    pred: Seq<char>,
    lo: LimitV,
    hi: LimitV,
    mode: Mode,
    src: ExprV,
    target_ptr: Seq<char>,
    b: BuffersV,
    result: Seq<usize>,
    ir: Seq<char>,
    c: int,
) -> Emitted {
    if (lo matches LimitV::Cells(x) && hi matches LimitV::Cells(y) && x >= y) {
        Emitted { res: Ok(pred), ir, next: c }
    } else {
        let header = label + ".header"@;
        let body = label + ".body"@;
        let end = label + ".end"@;
        let idx = "%"@ + label + ".idx"@;
        let next = "%"@ + label + ".next"@;
        let cond = "%"@ + label + ".cond"@;
        let ir1 = ir + "  br label %"@ + header + "\n\n"@ + header + ":\n"@ + "  "@ + idx + " = phi i64 [ "@ + limit_text(lo)
            + ", %"@ + pred + " ], [ "@ + next + ", %"@ + body + " ]\n"@ + "  "@ + cond + " = icmp ult i64 "@ + idx + ", "@
            + limit_text(hi) + "\n"@ + "  br i1 "@ + cond + ", label %"@ + body + ", label %"@ + end + "\n\n"@ + body + ":\n"@;
        let v = emit_spec(g, src, b, idx, mode, result, Seq::empty(), ir1, c);
        match v.res {
            Err(d) => v,
            Ok(value) => {
                let gep = vname(v.next + 1);
                Emitted {
                    res: Ok(end),
                    ir: v.ir + "  "@ + gep + " = getelementptr inbounds "@ + element_type(g.precision) + ", ptr "@ + target_ptr
                        + ", i64 "@ + idx + "\n"@ + "  store "@ + ty_text(mode) + " "@ + value + ", ptr "@ + gep + ", align "@
                        + decimal(align_of(g.precision)) + "\n"@ + "  "@ + next + " = add i64 "@ + idx + ", "@ + decimal(
                        (match mode {
                            Mode::Scalar(_) => 1usize,
                            Mode::Vector(w, _) => w,
                        }) as nat,
                    ) + "\n"@ + "  br label %"@ + header + "\n\n"@ + end + ":\n"@,
                    next: v.next + 1,
                }
            },
        }
    }
}

impl LlvmCodeGen {
    /// One loop over `[lo, hi)`: see `range_spec`.
    pub fn emit_range_loop(
        &self,
        ir: &mut String,
        label: &String,
        pred: &String,
        lo: &Limit,
        hi: &Limit,
        mode: Mode,
        src: &Expr,
        target_ptr: &String,
        bufs: &Buffers,
        counter: &mut usize,
        result_shape: &Vec<usize>,
    ) -> (r: Result<String, HarmonyDisruption>)
        requires
            range_spec(self@, label@, pred@, lo@, hi@, mode, src@, target_ptr@, bufs@, result_shape@, old(ir)@, *old(counter) as int).next
                <= usize::MAX,
        ensures
            ({
                let s = range_spec(self@, label@, pred@, lo@, hi@, mode, src@, target_ptr@, bufs@, result_shape@, old(ir)@, *old(counter) as int);
                &&& final(ir)@ == s.ir
                &&& *final(counter) == s.next
                &&& match r {
                    Ok(v) => s.res == Ok::<Seq<char>, DisruptionV>(v@),
                    Err(d) => s.res == Err::<Seq<char>, DisruptionV>(disruption_view(d)),
                }
            }),
    {
        reveal(range_spec);
        match (lo, hi) {
            (Limit::Cells(a), Limit::Cells(b)) => {
                if *a >= *b {
                    return Ok(pred.clone());
                }
            },
            _ => {},
        }
        let mut header = String::new();
        push_str(&mut header, label.as_str());
        push_str(&mut header, ".header");
        let mut body = String::new();
        push_str(&mut body, label.as_str());
        push_str(&mut body, ".body");
        let mut end = String::new();
        push_str(&mut end, label.as_str());
        push_str(&mut end, ".end");
        let mut idx = String::new();
        push_str(&mut idx, "%");
        push_str(&mut idx, label.as_str());
        push_str(&mut idx, ".idx");
        let mut next = String::new();
        push_str(&mut next, "%");
        push_str(&mut next, label.as_str());
        push_str(&mut next, ".next");
        let mut cond = String::new();
        push_str(&mut cond, "%");
        push_str(&mut cond, label.as_str());
        push_str(&mut cond, ".cond");
        push_str(ir, "  br label %");
        push_str(ir, header.as_str());
        push_str(ir, "\n\n");
        push_str(ir, header.as_str());
        push_str(ir, ":\n");
        push_str(ir, "  ");
        push_str(ir, idx.as_str());
        push_str(ir, " = phi i64 [ ");
        push_limit(ir, lo);
        push_str(ir, ", %");
        push_str(ir, pred.as_str());
        push_str(ir, " ], [ ");
        push_str(ir, next.as_str());
        push_str(ir, ", %");
        push_str(ir, body.as_str());
        push_str(ir, " ]\n");
        push_str(ir, "  ");
        push_str(ir, cond.as_str());
        push_str(ir, " = icmp ult i64 ");
        push_str(ir, idx.as_str());
        push_str(ir, ", ");
        push_limit(ir, hi);
        push_str(ir, "\n");
        push_str(ir, "  br i1 ");
        push_str(ir, cond.as_str());
        push_str(ir, ", label %");
        push_str(ir, body.as_str());
        push_str(ir, ", label %");
        push_str(ir, end.as_str());
        push_str(ir, "\n\n");
        push_str(ir, body.as_str());
        push_str(ir, ":\n");
        let no_lifts: Vec<usize> = Vec::new();
        assert(no_lifts@ =~= Seq::<usize>::empty());
        proof {
            lemma_emit_grows(self@, src@, bufs@, idx@, mode, result_shape@, no_lifts@, ir@, *counter as int);
        }
        let value = match self.emit_expr(src, ir, bufs, &idx, counter, mode, result_shape, &no_lifts) {
            Ok(v) => v,
            Err(d) => return Err(d),
        };
        let gep = fresh(counter);
        push_str(ir, "  ");
        push_str(ir, gep.as_str());
        push_str(ir, " = getelementptr inbounds ");
        push_str(ir, self.precision.llvm_type());
        push_str(ir, ", ptr ");
        push_str(ir, target_ptr.as_str());
        push_str(ir, ", i64 ");
        push_str(ir, idx.as_str());
        push_str(ir, "\n");
        push_str(ir, "  store ");
        let ty = mode.ty();
        push_str(ir, ty.as_str());
        push_str(ir, " ");
        push_str(ir, value.as_str());
        push_str(ir, ", ptr ");
        push_str(ir, gep.as_str());
        push_str(ir, ", align ");
        push_decimal(ir, align(self.precision));
        push_str(ir, "\n");
        push_str(ir, "  ");
        push_str(ir, next.as_str());
        push_str(ir, " = add i64 ");
        push_str(ir, idx.as_str());
        push_str(ir, ", ");
        push_decimal(ir, mode.lanes() as u64);
        push_str(ir, "\n");
        push_str(ir, "  br label %");
        push_str(ir, header.as_str());
        push_str(ir, "\n\n");
        push_str(ir, end.as_str());
        push_str(ir, ":\n");
        Ok(end)
    }
}

// ---------------------------------------------------------------- folds

/// What lowering the folds of a flow leaves: the label control is on, the
/// text, the counter, and the buffers with each fold's result placed.
pub struct Pass {
    pub res: Result<Seq<char>, DisruptionV>,
    pub ir: Seq<char>,
    pub next: int,
    pub bufs: BuffersV,
}

/// A fold as the language writes it: `◇+`, `◇×`, `◇>`, `◇<`.
pub open spec fn fold_text(op: FoldOp) -> Seq<char> {
    match op {
        FoldOp::Sum => "◇+"@,
        FoldOp::Product => "◇×"@,
        FoldOp::Max => "◇>"@,
        FoldOp::Min => "◇<"@,
    }
}

/// The bits of a fold's starting value: 0, 1, -∞ or +∞.
pub open spec fn identity_bits(op: FoldOp) -> u64 {
    match op {
        FoldOp::Sum => 0u64,
        FoldOp::Product => 0x3FF0000000000000u64,
        FoldOp::Max => 0xFFF0000000000000u64,
        FoldOp::Min => 0x7FF0000000000000u64,
    }
}

/// The cells before or after an axis, their plain product counted as at
/// least one, when it fits a machine word.
pub open spec fn span(s: Seq<usize>) -> Option<usize> {
    crate::sv::counted(s)
}

/// The loops of a fold up to the read of the operand: the comment, the
/// outer loop over surviving lines, the start of each line, and the inner
/// loop's step index.
pub open spec fn fold_head_text(
    g: GenV,
    op: FoldOp,
    running: bool,
    a: int,
    shape: Seq<usize>,
    out_cells: int,
    lines: int,
    inner: int,
    extent: int,
    pl: Seq<char>,
    l: Seq<char>,
    pred: Seq<char>,
    ir: Seq<char>,
) -> Seq<char> {
    let elem = element_type(g.precision);
    ir + "  ; "@ + fold_text(op) + " ("@ + (if running {
                                "running"@
                            } else {
                                "total"@
                            }) + ") over axis "@ + decimal(a as nat) + " of "@ + crate::text::debug_dims(shape) + " -> "@
                                + decimal(out_cells as nat) + " cells\n"@ + "  br label "@ + pl + ".header\n\n"@ + l
                                + ".header:\n"@ + "  "@ + pl + ".j = phi i64 [ 0, %"@ + pred + " ], [ "@ + pl + ".j.next, "@
                                + pl + ".tail ]\n"@ + "  "@ + pl + ".go = icmp ult i64 "@ + pl + ".j, "@ + decimal(
                                lines as nat,
                            ) + "\n"@ + "  br i1 "@ + pl + ".go, label "@ + pl + ".body, label "@ + pl + ".end\n\n"@ + l
                                + ".body:\n"@ + "  "@ + pl + ".o = udiv i64 "@ + pl + ".j, "@ + decimal(inner as nat) + "\n"@
                                + "  "@ + pl + ".t = urem i64 "@ + pl + ".j, "@ + decimal(inner as nat) + "\n"@ + "  "@ + pl
                                + ".block = mul i64 "@ + pl + ".o, "@ + decimal((extent * inner) as nat) + "\n"@ + "  "@ + pl
                                + ".base = add i64 "@ + pl + ".block, "@ + pl + ".t\n"@ + "  br label "@ + pl
                                + ".inner\n\n"@ + l + ".inner:\n"@ + "  "@ + pl + ".m = phi i64 [ 0, "@ + pl + ".body ], [ "@
                                + pl + ".m.next, "@ + pl + ".step ]\n"@ + "  "@ + pl + ".acc = phi "@ + elem + " [ "@
                                + float_text(identity_bits(op)) + ", "@ + pl + ".body ], [ "@ + pl + ".acc.next, "@ + pl
                                + ".step ]\n"@ + "  "@ + pl + ".more = icmp ult i64 "@ + pl + ".m, "@ + decimal(extent as nat)
                                + "\n"@ + "  br i1 "@ + pl + ".more, label "@ + pl + ".step, label "@ + pl + ".tail\n\n"@ + l
                                + ".step:\n"@ + "  "@ + pl + ".off = mul i64 "@ + pl + ".m, "@ + decimal(inner as nat) + "\n"@
                                + "  "@ + pl + ".at = add i64 "@ + pl + ".base, "@ + pl + ".off\n"@
}

/// The loops of a fold after the read of the operand: the accumulation,
/// the store of a scan's step or a fold's total, and the loops' ends.
pub open spec fn fold_tail_text(
    g: GenV,
    op: FoldOp,
    running: bool,
    pl: Seq<char>,
    l: Seq<char>,
    buffer: Seq<char>,
    element: Seq<char>,
    ir: Seq<char>,
) -> Seq<char> {
    fold_store_text(g, running, pl, l, buffer, accumulated(g, op, pl, element, ir))
}

/// The accumulation of one element into a fold's running value.
pub open spec fn accumulated(g: GenV, op: FoldOp, pl: Seq<char>, element: Seq<char>, ir: Seq<char>) -> Seq<char> {
    let elem = element_type(g.precision);
    let ir3 = match op {
        FoldOp::Sum => ir + "  "@ + pl + ".acc.next = fadd "@ + elem + " "@ + pl + ".acc, "@
            + element + "\n"@,
        FoldOp::Product => ir + "  "@ + pl + ".acc.next = fmul "@ + elem + " "@ + pl
            + ".acc, "@ + element + "\n"@,
        _ => ir + "  "@ + pl + ".win = fcmp "@ + (if op is Max {
            "ogt"@
        } else {
            "olt"@
        }) + " "@ + elem + " "@ + element + ", "@ + pl + ".acc\n"@ + "  "@ + pl
            + ".acc.next = select i1 "@ + pl + ".win, "@ + elem + " "@ + element + ", "@ + elem
            + " "@ + pl + ".acc\n"@,
    };
    ir3
}

/// After the accumulation: the store of a scan's step or a fold's total,
/// and the loops' ends.
pub open spec fn fold_store_text(g: GenV, running: bool, pl: Seq<char>, l: Seq<char>, buffer: Seq<char>, ir3: Seq<char>) -> Seq<char> {
    let elem = element_type(g.precision);
    let al = decimal(align_of(g.precision));
    let ir4 = if running {
        ir3 + "  "@ + pl + ".here = getelementptr inbounds "@ + elem + ", ptr "@ + buffer
            + ", i64 "@ + pl + ".at\n"@ + "  store "@ + elem + " "@ + pl + ".acc.next, ptr "@
            + pl + ".here, align "@ + al + "\n"@
    } else {
        ir3
    };
    let ir5 = ir4 + "  "@ + pl + ".m.next = add i64 "@ + pl + ".m, 1\n"@ + "  br label "@
        + pl + ".inner\n\n"@ + l + ".tail:\n"@;
    let ir6 = if running {
        ir5
    } else {
        ir5 + "  "@ + pl + ".slot = getelementptr inbounds "@ + elem + ", ptr "@ + buffer
            + ", i64 "@ + pl + ".j\n"@ + "  store "@ + elem + " "@ + pl + ".acc, ptr "@ + pl
            + ".slot, align "@ + al + "\n"@
    };
    let ir7 = ir6 + "  "@ + pl + ".j.next = add i64 "@ + pl + ".j, 1\n"@ + "  br label "@
        + pl + ".header\n\n"@ + l + ".end:\n"@;
    ir7
}

/// Where a fold runs: the operand's shape, the axis, the cells before and
/// after it (each at least one) and its extent (at least one), with every
/// product of them counted in a machine word.
pub struct FoldGeometry {
    pub shape: Seq<usize>,
    pub a: int,
    pub outer: int,
    pub inner: int,
    pub extent: int,
}

#[verifier::opaque]
pub open spec fn fold_plan(g: GenV, op: FoldOp, axis: Option<usize>, operand: ExprV) -> Result<FoldGeometry, DisruptionV> {
    match shape_of_expr(operand, g.shapes) {
        None => Err(DisruptionV::LoweringErr { detail: fold_text(op) + " needs an operand with a known shape"@, line: g.line }),
        Some(shape) => {
            let a: int = match axis {
                Some(x) => x as int,
                None => default_axis_of(shape),
            };
            if a >= shape.len() {
                Err(
                    DisruptionV::LoweringErr {
                        detail: "axis "@ + decimal(a as nat) + " is out of range for a rank-"@ + decimal(shape.len())
                            + " space (shape "@ + crate::text::debug_dims(shape) + ")"@,
                        line: g.line,
                    },
                )
            } else {
                match (span(shape.take(a)), span(shape.skip(a + 1))) {
                    (Some(outer), Some(inner)) => {
                        let extent: int = if shape[a] == 0 {
                            1
                        } else {
                            shape[a] as int
                        };
                        if outer * extent * inner > usize::MAX {
                            Err(oversize(g.line))
                        } else {
                            Ok(FoldGeometry { shape, a, outer: outer as int, inner: inner as int, extent })
                        }
                    },
                    _ => Err(oversize(g.line)),
                }
            }
        },
    }
}

/// One fold or scan where `fold_plan` put it.
#[verifier::opaque]
pub open spec fn fold_body(
    g: GenV,
    node: ExprV,
    op: FoldOp,
    operand: ExprV,
    running: bool,
    fg: FoldGeometry,
    b: BuffersV,
    pred: Seq<char>,
    ir: Seq<char>,
    c: int,
) -> Pass {
    let lines: int = fg.outer * fg.inner;
    let out_cells: int = if running {
        fg.outer * fg.extent * fg.inner
    } else {
        lines
    };
    let id = c + 1;
    let l = "fold"@ + decimal(id as nat);
    let pl = "%"@ + l;
    let sc = scratch_spec(g, l + "_buf"@, out_cells as usize, ir, b.heap);
    let ir2 = fold_head_text(g, op, running, fg.a, fg.shape, out_cells, lines, fg.inner, fg.extent, pl, l, pred, sc.1);
    let b1 = BuffersV { heap: sc.2, ..b };
    let v = emit_spec(g, operand, b1, pl + ".at"@, Mode::Scalar(g.precision), fg.shape, Seq::empty(), ir2, id);
    match v.res {
        Err(d) => Pass { res: Err(d), ir: v.ir, next: v.next, bufs: b1 },
        Ok(element) => Pass {
            res: Ok(l + ".end"@),
            ir: fold_tail_text(g, op, running, pl, l, sc.0, element, v.ir),
            next: v.next,
            bufs: BuffersV { folds: b1.folds.insert(glyphs(node), sc.0), ..b1 },
        },
    }
}

/// One fold or scan of `operand` along its axis, into a buffer of its own:
/// an outer loop over the lines that survive and an inner loop walking the
/// axis. A scan stores every step; a fold stores each line's total.
pub open spec fn fold_step(
    g: GenV,
    node: ExprV,
    op: FoldOp,
    axis: Option<usize>,
    operand: ExprV,
    running: bool,
    b: BuffersV,
    pred: Seq<char>,
    ir: Seq<char>,
    c: int,
) -> Pass {
    match fold_plan(g, op, axis, operand) {
        Err(d) => Pass { res: Err(d), ir, next: c, bufs: b },
        Ok(fg) => fold_body(g, node, op, operand, running, fg, b, pred, ir, c),
    }
}

/// Every fold in `e` lowered into its own buffer, innermost first, so a
/// nested fold's result exists before the fold that reads it.
pub open spec fn prepass(g: GenV, e: ExprV, b: BuffersV, pred: Seq<char>, ir: Seq<char>, c: int) -> Pass
    decreases e,
{
    match e {
        ExprV::AuditTrace(inner) => prepass(g, *inner, b, pred, ir, c),
        ExprV::Shift { operand, .. } => prepass(g, *operand, b, pred, ir, c),
        ExprV::Builtin { operand, .. } => prepass(g, *operand, b, pred, ir, c),
        ExprV::Lift { operand, .. } => prepass(g, *operand, b, pred, ir, c),
        ExprV::BinaryOp { lhs, rhs, .. } => {
            let p = prepass(g, *lhs, b, pred, ir, c);
            match p.res {
                Err(d) => p,
                Ok(l) => prepass(g, *rhs, p.bufs, l, p.ir, p.next),
            }
        },
        ExprV::Reduce { op, axis, operand } => {
            let p = prepass(g, *operand, b, pred, ir, c);
            match p.res {
                Err(d) => p,
                Ok(l) => fold_step(g, e, op, axis, *operand, false, p.bufs, l, p.ir, p.next),
            }
        },
        ExprV::Scan { op, axis, operand } => {
            let p = prepass(g, *operand, b, pred, ir, c);
            match p.res {
                Err(d) => p,
                Ok(l) => fold_step(g, e, op, axis, *operand, true, p.bufs, l, p.ir, p.next),
            }
        },
        _ => Pass { res: Ok(pred), ir, next: c, bufs: b },
    }
}

proof fn lemma_fold_step_grows(
    g: GenV,
    node: ExprV,
    op: FoldOp,
    axis: Option<usize>,
    operand: ExprV,
    running: bool,
    b: BuffersV,
    pred: Seq<char>,
    ir: Seq<char>,
    c: int,
)
    ensures
        c <= fold_step(g, node, op, axis, operand, running, b, pred, ir, c).next,
        fold_step(g, node, op, axis, operand, running, b, pred, ir, c).bufs.map == b.map,
        fold_step(g, node, op, axis, operand, running, b, pred, ir, c).bufs.bound == b.bound,
{
    if let Ok(fg) = fold_plan(g, op, axis, operand) {
        reveal(fold_body);
        lemma_fold_body_grows(g, node, op, operand, running, fg, b, pred, ir, c);
    }
}

#[verifier::spinoff_prover]
#[verifier::rlimit(40)]
proof fn lemma_fold_body_grows(
    g: GenV,
    node: ExprV,
    op: FoldOp,
    operand: ExprV,
    running: bool,
    fg: FoldGeometry,
    b: BuffersV,
    pred: Seq<char>,
    ir: Seq<char>,
    c: int,
)
    ensures
        c + 1 <= fold_body(g, node, op, operand, running, fg, b, pred, ir, c).next,
        fold_body(g, node, op, operand, running, fg, b, pred, ir, c).bufs.map == b.map,
        fold_body(g, node, op, operand, running, fg, b, pred, ir, c).bufs.bound == b.bound,
{
    reveal(fold_body);
    let lines: int = fg.outer * fg.inner;
    let out_cells: int = if running {
        fg.outer * fg.extent * fg.inner
    } else {
        lines
    };
    let l = "fold"@ + decimal((c + 1) as nat);
    let sc = scratch_spec(g, l + "_buf"@, out_cells as usize, ir, b.heap);
    lemma_emit_grows_any(g, operand, BuffersV { heap: sc.2, ..b }, "%"@ + l + ".at"@, Mode::Scalar(g.precision), fg.shape, Seq::empty(), c + 1);
}

/// The counter does not go back, whatever text came before.
proof fn lemma_emit_grows_any(
    g: GenV,
    e: ExprV,
    b: BuffersV,
    idx: Seq<char>,
    mode: Mode,
    result: Seq<usize>,
    lifts: Seq<usize>,
    c: int,
)
    ensures
        forall|ir: Seq<char>| c <= #[trigger] emit_spec(g, e, b, idx, mode, result, lifts, ir, c).next,
{
    assert forall|ir: Seq<char>| c <= #[trigger] emit_spec(g, e, b, idx, mode, result, lifts, ir, c).next by {
        lemma_emit_grows(g, e, b, idx, mode, result, lifts, ir, c);
    }
}

proof fn lemma_prepass_grows(g: GenV, e: ExprV, b: BuffersV, pred: Seq<char>, ir: Seq<char>, c: int)
    ensures
        c <= prepass(g, e, b, pred, ir, c).next,
        prepass(g, e, b, pred, ir, c).bufs.map == b.map,
        prepass(g, e, b, pred, ir, c).bufs.bound == b.bound,
    decreases e,
{
    match e {
        ExprV::AuditTrace(inner) => lemma_prepass_grows(g, *inner, b, pred, ir, c),
        ExprV::Shift { operand, .. } => lemma_prepass_grows(g, *operand, b, pred, ir, c),
        ExprV::Builtin { operand, .. } => lemma_prepass_grows(g, *operand, b, pred, ir, c),
        ExprV::Lift { operand, .. } => lemma_prepass_grows(g, *operand, b, pred, ir, c),
        ExprV::BinaryOp { lhs, rhs, .. } => {
            lemma_prepass_grows(g, *lhs, b, pred, ir, c);
            let p = prepass(g, *lhs, b, pred, ir, c);
            if let Ok(l) = p.res {
                lemma_prepass_grows(g, *rhs, p.bufs, l, p.ir, p.next);
            }
        },
        ExprV::Reduce { op, axis, operand } => {
            lemma_prepass_grows(g, *operand, b, pred, ir, c);
            let p = prepass(g, *operand, b, pred, ir, c);
            if let Ok(l) = p.res {
                lemma_fold_step_grows(g, e, op, axis, *operand, false, p.bufs, l, p.ir, p.next);
            }
        },
        ExprV::Scan { op, axis, operand } => {
            lemma_prepass_grows(g, *operand, b, pred, ir, c);
            let p = prepass(g, *operand, b, pred, ir, c);
            if let Ok(l) = p.res {
                lemma_fold_step_grows(g, e, op, axis, *operand, true, p.bufs, l, p.ir, p.next);
            }
        },
        _ => {},
    }
}

fn fold_glyph(op: FoldOp) -> (r: &'static str)
    ensures
        r@ == fold_text(op),
{
    match op {
        FoldOp::Sum => "◇+",
        FoldOp::Product => "◇×",
        FoldOp::Max => "◇>",
        FoldOp::Min => "◇<",
    }
}

fn identity_of(op: FoldOp) -> (r: u64)
    ensures
        r == identity_bits(op),
{
    match op {
        FoldOp::Sum => 0u64,
        FoldOp::Product => 0x3FF0000000000000u64,
        FoldOp::Max => 0xFFF0000000000000u64,
        FoldOp::Min => 0x7FF0000000000000u64,
    }
}

fn part_of(v: &Vec<usize>, lo: usize, hi: usize) -> (r: Vec<usize>)
    requires
        lo <= hi <= v.len(),
    ensures
        r@ == v@.subrange(lo as int, hi as int),
{
    let mut out: Vec<usize> = Vec::new();
    let mut i = lo;
    while i < hi
        invariant
            lo <= i <= hi,
            hi <= v.len(),
            out@ == v@.subrange(lo as int, i as int),
        decreases hi - i,
    {
        out.push(v[i]);
        i = i + 1;
        assert(out@ =~= v@.subrange(lo as int, i as int));
    }
    out
}

/// Appends `%name` followed by `tail`.
fn push_named(ir: &mut String, pl: &String, tail: &str)
    ensures
        final(ir)@ == old(ir)@ + pl@ + tail@,
{
    push_str(ir, pl.as_str());
    push_str(ir, tail);
}

impl LlvmCodeGen {
    #[verifier::spinoff_prover]
    #[verifier::rlimit(40)]
    fn push_fold_head(
        &self,
        ir: &mut String,
        op: FoldOp,
        running: bool,
        a: usize,
        shape: &Vec<usize>,
        out_cells: usize,
        lines: usize,
        inner: usize,
        extent: usize,
        pl: &String,
        l: &String,
        pred: &String,
    )
        requires
            extent * inner <= usize::MAX,
        ensures
            final(ir)@ == fold_head_text(
                self@,
                op,
                running,
                a as int,
                shape@,
                out_cells as int,
                lines as int,
                inner as int,
                extent as int,
                pl@,
                l@,
                pred@,
                old(ir)@,
            ),
    {
        let ei = extent * inner;
        let elem = self.precision.llvm_type();
        push_str(ir, "  ; ");
        push_str(ir, fold_glyph(op));
        push_str(ir, " (");
        if running {
            push_str(ir, "running");
        } else {
            push_str(ir, "total");
        }
        push_str(ir, ") over axis ");
        push_decimal(ir, a as u64);
        push_str(ir, " of ");
        crate::text::push_debug_dims(ir, shape.as_slice());
        push_str(ir, " -> ");
        push_decimal(ir, out_cells as u64);
        push_str(ir, " cells\n");
        push_str(ir, "  br label ");
        push_named(ir, &pl, ".header\n\n");
        push_named(ir, &l, ".header:\n");
        push_str(ir, "  ");
        push_named(ir, &pl, ".j = phi i64 [ 0, %");
        push_str(ir, pred.as_str());
        push_str(ir, " ], [ ");
        push_named(ir, &pl, ".j.next, ");
        push_named(ir, &pl, ".tail ]\n");
        push_str(ir, "  ");
        push_named(ir, &pl, ".go = icmp ult i64 ");
        push_named(ir, &pl, ".j, ");
        push_decimal(ir, lines as u64);
        push_str(ir, "\n");
        push_str(ir, "  br i1 ");
        push_named(ir, &pl, ".go, label ");
        push_named(ir, &pl, ".body, label ");
        push_named(ir, &pl, ".end\n\n");
        push_named(ir, &l, ".body:\n");
        push_str(ir, "  ");
        push_named(ir, &pl, ".o = udiv i64 ");
        push_named(ir, &pl, ".j, ");
        push_decimal(ir, inner as u64);
        push_str(ir, "\n");
        push_str(ir, "  ");
        push_named(ir, &pl, ".t = urem i64 ");
        push_named(ir, &pl, ".j, ");
        push_decimal(ir, inner as u64);
        push_str(ir, "\n");
        push_str(ir, "  ");
        push_named(ir, &pl, ".block = mul i64 ");
        push_named(ir, &pl, ".o, ");
        push_decimal(ir, ei as u64);
        push_str(ir, "\n");
        push_str(ir, "  ");
        push_named(ir, &pl, ".base = add i64 ");
        push_named(ir, &pl, ".block, ");
        push_named(ir, &pl, ".t\n");
        push_str(ir, "  br label ");
        push_named(ir, &pl, ".inner\n\n");
        push_named(ir, &l, ".inner:\n");
        push_str(ir, "  ");
        push_named(ir, &pl, ".m = phi i64 [ 0, ");
        push_named(ir, &pl, ".body ], [ ");
        push_named(ir, &pl, ".m.next, ");
        push_named(ir, &pl, ".step ]\n");
        push_str(ir, "  ");
        push_named(ir, &pl, ".acc = phi ");
        push_str(ir, elem);
        push_str(ir, " [ ");
        let idt = {
            let mut t = String::new();
            push_str(&mut t, "0x");
            crate::sv::push_hex(&mut t, identity_of(op), 16);
            t
        };
        push_str(ir, idt.as_str());
        push_str(ir, ", ");
        push_named(ir, &pl, ".body ], [ ");
        push_named(ir, &pl, ".acc.next, ");
        push_named(ir, &pl, ".step ]\n");
        push_str(ir, "  ");
        push_named(ir, &pl, ".more = icmp ult i64 ");
        push_named(ir, &pl, ".m, ");
        push_decimal(ir, extent as u64);
        push_str(ir, "\n");
        push_str(ir, "  br i1 ");
        push_named(ir, &pl, ".more, label ");
        push_named(ir, &pl, ".step, label ");
        push_named(ir, &pl, ".tail\n\n");
        push_named(ir, &l, ".step:\n");
        push_str(ir, "  ");
        push_named(ir, &pl, ".off = mul i64 ");
        push_named(ir, &pl, ".m, ");
        push_decimal(ir, inner as u64);
        push_str(ir, "\n");
        push_str(ir, "  ");
        push_named(ir, &pl, ".at = add i64 ");
        push_named(ir, &pl, ".base, ");
        push_named(ir, &pl, ".off\n");
    }

    #[verifier::spinoff_prover]
    #[verifier::rlimit(40)]
    fn push_fold_tail(
        &self,
        ir: &mut String,
        op: FoldOp,
        running: bool,
        pl: &String,
        l: &String,
        buffer: &String,
        element: &String,
    )
        ensures
            final(ir)@ == fold_tail_text(self@, op, running, pl@, l@, buffer@, element@, old(ir)@),
    {
        let elem = self.precision.llvm_type();
        match op {
            FoldOp::Sum => {
                push_str(ir, "  ");
                push_named(ir, &pl, ".acc.next = fadd ");
                push_str(ir, elem);
                push_str(ir, " ");
                push_named(ir, &pl, ".acc, ");
                push_str(ir, element.as_str());
                push_str(ir, "\n");
            },
            FoldOp::Product => {
                push_str(ir, "  ");
                push_named(ir, &pl, ".acc.next = fmul ");
                push_str(ir, elem);
                push_str(ir, " ");
                push_named(ir, &pl, ".acc, ");
                push_str(ir, element.as_str());
                push_str(ir, "\n");
            },
            _ => {
                push_str(ir, "  ");
                push_named(ir, &pl, ".win = fcmp ");
                match op {
                    FoldOp::Max => push_str(ir, "ogt"),
                    _ => push_str(ir, "olt"),
                }
                push_str(ir, " ");
                push_str(ir, elem);
                push_str(ir, " ");
                push_str(ir, element.as_str());
                push_str(ir, ", ");
                push_named(ir, &pl, ".acc\n");
                push_str(ir, "  ");
                push_named(ir, &pl, ".acc.next = select i1 ");
                push_named(ir, &pl, ".win, ");
                push_str(ir, elem);
                push_str(ir, " ");
                push_str(ir, element.as_str());
                push_str(ir, ", ");
                push_str(ir, elem);
                push_str(ir, " ");
                push_named(ir, &pl, ".acc\n");
            },
        }
        assert(ir@ == accumulated(self@, op, pl@, element@, old(ir)@));
        let ghost ir3 = ir@;
        let mut al = String::new();
        push_decimal(&mut al, align(self.precision));
        if running {
            push_str(ir, "  ");
            push_named(ir, &pl, ".here = getelementptr inbounds ");
            push_str(ir, elem);
            push_str(ir, ", ptr ");
            push_str(ir, buffer.as_str());
            push_str(ir, ", i64 ");
            push_named(ir, &pl, ".at\n");
            push_str(ir, "  store ");
            push_str(ir, elem);
            push_str(ir, " ");
            push_named(ir, &pl, ".acc.next, ptr ");
            push_named(ir, &pl, ".here, align ");
            push_str(ir, al.as_str());
            push_str(ir, "\n");
        }
        push_str(ir, "  ");
        push_named(ir, &pl, ".m.next = add i64 ");
        push_named(ir, &pl, ".m, 1\n");
        push_str(ir, "  br label ");
        push_named(ir, &pl, ".inner\n\n");
        push_named(ir, &l, ".tail:\n");
        if !running {
            push_str(ir, "  ");
            push_named(ir, &pl, ".slot = getelementptr inbounds ");
            push_str(ir, elem);
            push_str(ir, ", ptr ");
            push_str(ir, buffer.as_str());
            push_str(ir, ", i64 ");
            push_named(ir, &pl, ".j\n");
            push_str(ir, "  store ");
            push_str(ir, elem);
            push_str(ir, " ");
            push_named(ir, &pl, ".acc, ptr ");
            push_named(ir, &pl, ".slot, align ");
            push_str(ir, al.as_str());
            push_str(ir, "\n");
        }
        push_str(ir, "  ");
        push_named(ir, &pl, ".j.next = add i64 ");
        push_named(ir, &pl, ".j, 1\n");
        push_str(ir, "  br label ");
        push_named(ir, &pl, ".header\n\n");
        push_named(ir, &l, ".end:\n");
    }
}

impl LlvmCodeGen {
    fn plan_fold(&self, op: FoldOp, axis: Option<usize>, operand: &Expr) -> (r: Result<
        (Vec<usize>, usize, usize, usize, usize),
        HarmonyDisruption,
    >)
        ensures
            match r {
                Ok((shape, a, outer, inner, extent)) => fold_plan(self@, op, axis, operand@) == Ok::<
                    FoldGeometry,
                    DisruptionV,
                >(FoldGeometry { shape: shape@, a: a as int, outer: outer as int, inner: inner as int, extent: extent as int })
                    && outer >= 1 && inner >= 1 && extent >= 1 && outer * extent * inner <= usize::MAX,
                Err(d) => fold_plan(self@, op, axis, operand@) == Err::<FoldGeometry, DisruptionV>(disruption_view(d)),
            },
    {
        reveal(fold_plan);
        let shape = match crate::ast::expr_shape(operand, &self.space_shapes) {
            Some(sh) => sh,
            None => {
                let mut m = String::new();
                push_str(&mut m, fold_glyph(op));
                push_str(&mut m, " needs an operand with a known shape");
                return Err(HarmonyDisruption::LoweringErr { detail: m, line: self.current_line });
            },
        };
        let a = match axis {
            Some(x) => x,
            None => crate::ast::default_axis(shape.as_slice()),
        };
        if a >= shape.len() {
            let mut m = String::new();
            push_str(&mut m, "axis ");
            push_decimal(&mut m, a as u64);
            push_str(&mut m, " is out of range for a rank-");
            push_decimal(&mut m, shape.len() as u64);
            push_str(&mut m, " space (shape ");
            crate::text::push_debug_dims(&mut m, shape.as_slice());
            push_str(&mut m, ")");
            return Err(HarmonyDisruption::LoweringErr { detail: m, line: self.current_line });
        }
        let prefix = part_of(&shape, 0, a);
        let suffix = part_of(&shape, a + 1, shape.len());
        assert(prefix@ =~= shape@.take(a as int));
        assert(suffix@ =~= shape@.skip(a + 1));
        let mut too_large = String::new();
        push_str(&mut too_large, "a shape whose cells overflow a machine word");
        let (outer, inner) = match (crate::sv::count_cells(&prefix), crate::sv::count_cells(&suffix)) {
            (Some(o), Some(i)) => (o, i),
            _ => return Err(HarmonyDisruption::LoweringErr { detail: too_large, line: self.current_line }),
        };
        let extent: usize = if shape[a] == 0 {
            1
        } else {
            shape[a]
        };
        proof {
            crate::sv::lemma_counted_positive(prefix@);
            crate::sv::lemma_counted_positive(suffix@);
        }
        match outer.checked_mul(extent) {
            Some(oe) => match oe.checked_mul(inner) {
                Some(_) => {
                    assert(outer * extent * inner == (outer * extent) * inner) by (nonlinear_arith);
                    Ok((shape, a, outer, inner, extent))
                },
                None => Err(HarmonyDisruption::LoweringErr { detail: too_large, line: self.current_line }),
            },
            None => {
                assert(outer * extent * inner >= outer * extent) by (nonlinear_arith)
                    requires
                        inner >= 1,
                        outer >= 0,
                        extent >= 0,
                ;
                Err(HarmonyDisruption::LoweringErr { detail: too_large, line: self.current_line })
            },
        }
    }

    #[verifier::spinoff_prover]
    #[verifier::rlimit(40)]
    fn emit_fold_body(
        &self,
        node: &Expr,
        op: FoldOp,
        operand: &Expr,
        running: bool,
        shape: &Vec<usize>,
        a: usize,
        outer: usize,
        inner: usize,
        extent: usize,
        ir: &mut String,
        bufs: &mut Buffers,
        pred: &String,
        counter: &mut usize,
    ) -> (r: Result<String, HarmonyDisruption>)
        requires
            outer >= 1,
            inner >= 1,
            extent >= 1,
            outer * extent * inner <= usize::MAX,
            fold_body(
                self@,
                node@,
                op,
                operand@,
                running,
                FoldGeometry { shape: shape@, a: a as int, outer: outer as int, inner: inner as int, extent: extent as int },
                old(bufs)@,
                pred@,
                old(ir)@,
                *old(counter) as int,
            ).next <= usize::MAX,
        ensures
            ({
                let s = fold_body(
                    self@,
                    node@,
                    op,
                    operand@,
                    running,
                    FoldGeometry { shape: shape@, a: a as int, outer: outer as int, inner: inner as int, extent: extent as int },
                    old(bufs)@,
                    pred@,
                    old(ir)@,
                    *old(counter) as int,
                );
                &&& final(ir)@ == s.ir
                &&& *final(counter) == s.next
                &&& final(bufs)@ == s.bufs
                &&& match r {
                    Ok(v) => s.res == Ok::<Seq<char>, DisruptionV>(v@),
                    Err(d) => s.res == Err::<Seq<char>, DisruptionV>(disruption_view(d)),
                }
            }),
    {
        reveal(fold_body);
        let ghost fg = FoldGeometry {
            shape: shape@,
            a: a as int,
            outer: outer as int,
            inner: inner as int,
            extent: extent as int,
        };
        proof {
            lemma_fold_body_grows(self@, node@, op, operand@, running, fg, bufs@, pred@, ir@, *counter as int);
            assert(outer * inner <= outer * extent * inner) by (nonlinear_arith)
                requires
                    extent >= 1,
                    outer >= 1,
                    inner >= 1,
            ;
            assert(extent * inner <= outer * extent * inner) by (nonlinear_arith)
                requires
                    extent >= 1,
                    outer >= 1,
                    inner >= 1,
            ;
            assert(outer * extent * inner == (outer * extent) * inner) by (nonlinear_arith);
            assert(outer * extent <= (outer * extent) * inner) by (nonlinear_arith)
                requires
                    inner >= 1,
                    outer >= 1,
                    extent >= 1,
            ;
        }
        let lines = outer * inner;
        let out_cells = if running {
            outer * extent * inner
        } else {
            lines
        };
        let ghost c0 = *counter as int;
        let ghost b0 = bufs@;
        *counter = *counter + 1;
        let id = *counter;
        let mut l = String::new();
        push_str(&mut l, "fold");
        push_decimal(&mut l, id as u64);
        let mut pl = String::new();
        push_str(&mut pl, "%");
        push_str(&mut pl, l.as_str());
        let mut lbuf = String::new();
        push_str(&mut lbuf, l.as_str());
        push_str(&mut lbuf, "_buf");
        let buffer = self.emit_scratch(ir, &lbuf, out_cells, &mut bufs.heap);
        self.push_fold_head(ir, op, running, a, shape, out_cells, lines, inner, extent, &pl, &l, pred);
        let mut at = String::new();
        push_named(&mut at, &pl, ".at");
        assert(at@ =~= pl@ + ".at"@);
        let no_lifts: Vec<usize> = Vec::new();
        assert(no_lifts@ =~= Seq::<usize>::empty());
        assert(bufs@ == (BuffersV { heap: bufs@.heap, ..b0 }));
        let element = match self.emit_expr(operand, ir, bufs, &at, counter, Mode::Scalar(self.precision), shape, &no_lifts) {
            Ok(v) => v,
            Err(d) => return Err(d),
        };
        self.push_fold_tail(ir, op, running, &pl, &l, &buffer, &element);
        bufs.place_fold(node, buffer.as_str());
        let mut end = String::new();
        push_named(&mut end, &l, ".end");
        Ok(end)
    }

    /// One fold or scan: see `fold_step`.
    pub fn emit_fold(
        &self,
        node: &Expr,
        op: FoldOp,
        axis: Option<usize>,
        operand: &Expr,
        ir: &mut String,
        bufs: &mut Buffers,
        pred: &String,
        counter: &mut usize,
        running: bool,
    ) -> (r: Result<String, HarmonyDisruption>)
        requires
            fold_step(self@, node@, op, axis, operand@, running, old(bufs)@, pred@, old(ir)@, *old(counter) as int).next
                <= usize::MAX,
        ensures
            ({
                let s = fold_step(self@, node@, op, axis, operand@, running, old(bufs)@, pred@, old(ir)@, *old(counter) as int);
                &&& final(ir)@ == s.ir
                &&& *final(counter) == s.next
                &&& final(bufs)@ == s.bufs
                &&& match r {
                    Ok(v) => s.res == Ok::<Seq<char>, DisruptionV>(v@),
                    Err(d) => s.res == Err::<Seq<char>, DisruptionV>(disruption_view(d)),
                }
            }),
    {
        match self.plan_fold(op, axis, operand) {
            Err(d) => Err(d),
            Ok((shape, a, outer, inner, extent)) => {
                self.emit_fold_body(node, op, operand, running, &shape, a, outer, inner, extent, ir, bufs, pred, counter)
            },
        }
    }
}

impl LlvmCodeGen {
    /// Every fold in `e` into its own buffer, innermost first: see
    /// `prepass`. The label control lands on comes back.
    pub fn emit_fold_prepass(
        &self,
        e: &Expr,
        ir: &mut String,
        bufs: &mut Buffers,
        pred: &String,
        counter: &mut usize,
    ) -> (r: Result<String, HarmonyDisruption>)
        requires
            prepass(self@, e@, old(bufs)@, pred@, old(ir)@, *old(counter) as int).next <= usize::MAX,
        ensures
            ({
                let s = prepass(self@, e@, old(bufs)@, pred@, old(ir)@, *old(counter) as int);
                &&& final(ir)@ == s.ir
                &&& *final(counter) == s.next
                &&& final(bufs)@ == s.bufs
                &&& match r {
                    Ok(v) => s.res == Ok::<Seq<char>, DisruptionV>(v@),
                    Err(d) => s.res == Err::<Seq<char>, DisruptionV>(disruption_view(d)),
                }
            }),
        decreases e,
    {
        match e {
            Expr::AuditTrace(inner) => self.emit_fold_prepass(inner, ir, bufs, pred, counter),
            Expr::Shift { operand, .. } => self.emit_fold_prepass(operand, ir, bufs, pred, counter),
            Expr::Builtin { operand, .. } => self.emit_fold_prepass(operand, ir, bufs, pred, counter),
            Expr::Lift { operand, .. } => self.emit_fold_prepass(operand, ir, bufs, pred, counter),
            Expr::BinaryOp { lhs, rhs, .. } => {
                proof {
                    lemma_prepass_grows(self@, lhs@, bufs@, pred@, ir@, *counter as int);
                    let p = prepass(self@, lhs@, bufs@, pred@, ir@, *counter as int);
                    if let Ok(l) = p.res {
                        lemma_prepass_grows(self@, rhs@, p.bufs, l, p.ir, p.next);
                    }
                }
                let l = match self.emit_fold_prepass(lhs, ir, bufs, pred, counter) {
                    Ok(l) => l,
                    Err(d) => return Err(d),
                };
                self.emit_fold_prepass(rhs, ir, bufs, &l, counter)
            },
            Expr::Reduce { op, axis, operand } => {
                proof {
                    lemma_prepass_grows(self@, operand@, bufs@, pred@, ir@, *counter as int);
                    let p = prepass(self@, operand@, bufs@, pred@, ir@, *counter as int);
                    if let Ok(l) = p.res {
                        lemma_fold_step_grows(self@, e@, *op, *axis, operand@, false, p.bufs, l, p.ir, p.next);
                    }
                }
                let l = match self.emit_fold_prepass(operand, ir, bufs, pred, counter) {
                    Ok(l) => l,
                    Err(d) => return Err(d),
                };
                self.emit_fold(e, *op, *axis, operand, ir, bufs, &l, counter, false)
            },
            Expr::Scan { op, axis, operand } => {
                proof {
                    lemma_prepass_grows(self@, operand@, bufs@, pred@, ir@, *counter as int);
                    let p = prepass(self@, operand@, bufs@, pred@, ir@, *counter as int);
                    if let Ok(l) = p.res {
                        lemma_fold_step_grows(self@, e@, *op, *axis, operand@, true, p.bufs, l, p.ir, p.next);
                    }
                }
                let l = match self.emit_fold_prepass(operand, ir, bufs, pred, counter) {
                    Ok(l) => l,
                    Err(d) => return Err(d),
                };
                self.emit_fold(e, *op, *axis, operand, ir, bufs, &l, counter, true)
            },
            _ => Ok(pred.clone()),
        }
    }
}

// ---------------------------------------------------------------- sweeps

/// An axis past a shape, as a diagnostic.
pub open spec fn axis_fault(axis: Option<usize>, shape: Seq<usize>, line: usize) -> DisruptionV {
    DisruptionV::LoweringErr {
        detail: "axis "@ + (match axis {
            Some(a) => decimal(a as nat),
            None => "default"@,
        }) + " is out of range for a rank-"@ + decimal(shape.len()) + " space (shape "@ + crate::text::debug_dims(shape) + ")"@,
        line,
    }
}

/// The furthest a shift in `e` reaches from the current cell; a fold is
/// computed before the sweep and adds none.
pub open spec fn reach_spec(g: GenV, e: ExprV) -> Result<int, DisruptionV>
    decreases e,
{
    match e {
        ExprV::AuditTrace(inner) => reach_spec(g, *inner),
        ExprV::Lift { operand, .. } => reach_spec(g, *operand),
        ExprV::Builtin { operand, .. } => reach_spec(g, *operand),
        ExprV::BinaryOp { lhs, rhs, .. } => match reach_spec(g, *lhs) {
            Err(d) => Err(d),
            Ok(x) => match reach_spec(g, *rhs) {
                Err(d) => Err(d),
                Ok(y) => Ok(
                    if x >= y {
                        x
                    } else {
                        y
                    },
                ),
            },
        },
        ExprV::Shift { axis, operand, .. } => match reach_spec(g, *operand) {
            Err(d) => Err(d),
            Ok(inner) => match place_name(*operand) {
                None => Ok(inner),
                Some(name) => {
                    let shape = shape_for(g, name);
                    if !fits(shape) {
                        Err(oversize(g.line))
                    } else {
                        match geometry_of(shape, axis) {
                            None => Err(axis_fault(axis, shape, g.line)),
                            Some((stride, extent)) => if extent <= 1 {
                                Ok(inner)
                            } else if inner + stride > u64::MAX {
                                Err(oversize(g.line))
                            } else {
                                Ok(inner + stride)
                            },
                        }
                    }
                },
            },
        },
        _ => Ok(0),
    }
}

/// Whether a read in `e` is stretched, which rules out contiguous vector
/// loads.
pub open spec fn broadcast_read(g: GenV, e: ExprV, result: Seq<usize>, lifts: Seq<usize>) -> bool
    decreases e,
{
    match e {
        ExprV::Var(name) => lifted_spec(shape_for(g, name), lifts) != result,
        ExprV::AuditTrace(inner) => broadcast_read(g, *inner, result, lifts),
        ExprV::Shift { operand, .. } => broadcast_read(g, *operand, result, lifts),
        ExprV::Builtin { operand, .. } => broadcast_read(g, *operand, result, lifts),
        ExprV::Lift { axis, operand } => broadcast_read(g, *operand, result, lifts.push(axis)),
        ExprV::Reduce { .. } => lifted_spec(precomputed_shape(g, e), lifts) != result,
        ExprV::Scan { .. } => lifted_spec(precomputed_shape(g, e), lifts) != result,
        ExprV::BinaryOp { lhs, rhs, .. } => broadcast_read(g, *lhs, result, lifts) || broadcast_read(g, *rhs, result, lifts),
        _ => false,
    }
}

pub open spec fn describe_text(p: Sweep) -> Seq<char> {
    match p {
        Sweep::AllScalar => " (scalar)"@,
        Sweep::Split { vector_start, vector_end, width, .. } => " (scalar 0.."@ + decimal(vector_start as nat) + ", "@
            + decimal(width as nat) + "-wide vector "@ + decimal(vector_start as nat) + ".."@ + decimal(vector_end as nat)
            + ", scalar tail)"@,
    }
}

/// How one flow's sweep is split: scalar, or a scalar head, a body of
/// four-lane vectors whose every load stays inside the buffer, and a scalar
/// tail. A sweep of a length known only at run time stays scalar.
pub open spec fn plan_spec(g: GenV, src: ExprV, sweep: LimitV) -> Result<Sweep, DisruptionV> {
    match sweep {
        LimitV::Symbol(_) => Ok(Sweep::AllScalar),
        LimitV::Cells(total) => if !g.simd {
            Ok(Sweep::AllScalar)
        } else {
            match reach_spec(g, src) {
                Err(d) => Err(d),
                Ok(r) => if r + 3 > u64::MAX {
                    Err(oversize(g.line))
                } else {
                    Ok(crate::llvm_mode::split_of(total, r as u64, 4))
                },
            }
        },
    }
}

impl LlvmCodeGen {
    fn max_shift_stride(&self, e: &Expr) -> (r: Result<u64, HarmonyDisruption>)
        ensures
            match r {
                Ok(v) => reach_spec(self@, e@) == Ok::<int, DisruptionV>(v as int),
                Err(d) => reach_spec(self@, e@) == Err::<int, DisruptionV>(disruption_view(d)),
            },
        decreases e,
    {
        match e {
            Expr::AuditTrace(inner) => self.max_shift_stride(inner),
            Expr::Lift { operand, .. } => self.max_shift_stride(operand),
            Expr::Builtin { operand, .. } => self.max_shift_stride(operand),
            Expr::BinaryOp { lhs, rhs, .. } => {
                let x = match self.max_shift_stride(lhs) {
                    Ok(v) => v,
                    Err(d) => return Err(d),
                };
                let y = match self.max_shift_stride(rhs) {
                    Ok(v) => v,
                    Err(d) => return Err(d),
                };
                Ok(
                    if x >= y {
                        x
                    } else {
                        y
                    },
                )
            },
            Expr::Shift { axis, operand, .. } => {
                let inner = match self.max_shift_stride(operand) {
                    Ok(v) => v,
                    Err(d) => return Err(d),
                };
                let name = match place_name_of(operand) {
                    Some(n) => n,
                    None => return Ok(inner),
                };
                let shape = self.shape_for(&name);
                let mut too_large = String::new();
                push_str(&mut too_large, "a shape whose cells overflow a machine word");
                if !crate::expansion::shape_fits(shape.as_slice()) {
                    return Err(HarmonyDisruption::LoweringErr { detail: too_large, line: self.current_line });
                }
                match crate::ast::axis_geometry(shape.as_slice(), *axis) {
                    None => {
                        let mut m = String::new();
                        push_str(&mut m, "axis ");
                        match axis {
                            Some(a) => {
                                let mut t = String::new();
                                push_decimal(&mut t, *a as u64);
                                push_str(&mut m, t.as_str());
                            },
                            None => push_str(&mut m, "default"),
                        }
                        push_str(&mut m, " is out of range for a rank-");
                        push_decimal(&mut m, shape.len() as u64);
                        push_str(&mut m, " space (shape ");
                        crate::text::push_debug_dims(&mut m, shape.as_slice());
                        push_str(&mut m, ")");
                        Err(HarmonyDisruption::LoweringErr { detail: m, line: self.current_line })
                    },
                    Some((stride, extent)) => {
                        if extent <= 1 {
                            Ok(inner)
                        } else if inner > u64::MAX - (stride as u64) {
                            Err(HarmonyDisruption::LoweringErr { detail: too_large, line: self.current_line })
                        } else {
                            Ok(inner + stride as u64)
                        }
                    },
                }
            },
            _ => Ok(0),
        }
    }

    fn needs_broadcast(&self, e: &Expr, result: &Vec<usize>, lifts: &Vec<usize>) -> (r: bool)
        ensures
            r == broadcast_read(self@, e@, result@, lifts@),
        decreases e,
    {
        match e {
            Expr::Var(name) => {
                let view = lifted(self.shape_for(name).as_slice(), lifts.as_slice());
                !crate::parser::dims_eq(view.as_slice(), result.as_slice())
            },
            Expr::AuditTrace(inner) => self.needs_broadcast(inner, result, lifts),
            Expr::Shift { operand, .. } => self.needs_broadcast(operand, result, lifts),
            Expr::Builtin { operand, .. } => self.needs_broadcast(operand, result, lifts),
            Expr::Lift { axis, operand } => {
                let mut nested = crate::ast::copy_dims(lifts.as_slice());
                nested.push(*axis);
                assert(nested@ =~= lifts@.push(*axis));
                self.needs_broadcast(operand, result, &nested)
            },
            Expr::Reduce { .. } | Expr::Scan { .. } => {
                let view = lifted(self.precomputed_shape(e).as_slice(), lifts.as_slice());
                !crate::parser::dims_eq(view.as_slice(), result.as_slice())
            },
            Expr::BinaryOp { lhs, rhs, .. } => self.needs_broadcast(lhs, result, lifts) || self.needs_broadcast(
                rhs,
                result,
                lifts,
            ),
            _ => false,
        }
    }

    fn plan_sweep(&self, src: &Expr, sweep: &Limit) -> (r: Result<Sweep, HarmonyDisruption>)
        ensures
            match r {
                Ok(p) => plan_spec(self@, src@, sweep@) == Ok::<Sweep, DisruptionV>(p),
                Err(d) => plan_spec(self@, src@, sweep@) == Err::<Sweep, DisruptionV>(disruption_view(d)),
            },
    {
        match sweep {
            Limit::Symbol(_) => Ok(Sweep::AllScalar),
            Limit::Cells(total) => {
                if !self.simd {
                    return Ok(Sweep::AllScalar);
                }
                let reach = match self.max_shift_stride(src) {
                    Ok(r) => r,
                    Err(d) => return Err(d),
                };
                if reach > u64::MAX - 3 {
                    let mut m = String::new();
                    push_str(&mut m, "a shape whose cells overflow a machine word");
                    return Err(HarmonyDisruption::LoweringErr { detail: m, line: self.current_line });
                }
                Ok(Sweep::plan(*total, reach, 4))
            },
        }
    }
}

// ---------------------------------------------------------------- flows

/// The cells a flow sweeps: the bounded call's symbol, else the cells of
/// what the flow writes, else the grid's; none when they overflow a word.
pub open spec fn sweep_of(b: BuffersV, shape: Option<Seq<usize>>, elements: usize) -> Option<LimitV> {
    if b.bound.len() > 0 && b.bound[0] == '%' {
        Some(LimitV::Symbol(b.bound))
    } else {
        match shape {
            Some(s) => match crate::sv::counted(s) {
                Some(n) => Some(LimitV::Cells(n as u64)),
                None => None,
            },
            None => Some(LimitV::Cells(elements as u64)),
        }
    }
}

/// What a range loop leaves, with the buffers it did not touch.
pub open spec fn as_pass(e: Emitted, b: BuffersV) -> Pass {
    Pass { res: e.res, ir: e.ir, next: e.next, bufs: b }
}

/// One flow, its `id`-th: its folds first, then its sweep over every cell
/// of what it writes, in one loop or a scalar head, a vector body and a
/// scalar tail.
#[verifier::opaque]
pub open spec fn flow_spec(g: GenV, src: ExprV, target: TargetV, id: nat, pred: Seq<char>, b: BuffersV, ir: Seq<char>, c: int) -> Pass {
    let name = crate::sv::target_name(target);
    match lookup_spec(b, name, g.line) {
        Err(d) => Pass { res: Err(d), ir, next: c, bufs: b },
        Ok(tptr) => {
            let p = prepass(g, src, b, pred, ir, c);
            match p.res {
                Err(d) => p,
                Ok(l1) => {
                    let shape_opt = match shape_of_expr(src, g.shapes) {
                        Some(sh) => Some(sh),
                        None => if g.shapes.contains_key(name) {
                            Some(g.shapes[name])
                        } else {
                            None
                        },
                    };
                    match sweep_of(p.bufs, shape_opt, g.elements) {
                        None => Pass { res: Err(oversize(g.line)), ir: p.ir, next: p.next, bufs: p.bufs },
                        Some(sw) => {
                            let result = match shape_opt {
                                Some(sh) => sh,
                                None => seq![g.elements],
                            };
                            let plan = if broadcast_read(g, src, result, Seq::empty()) {
                                Ok(Sweep::AllScalar)
                            } else {
                                plan_spec(g, src, sw)
                            };
                            match plan {
                                Err(d) => Pass { res: Err(d), ir: p.ir, next: p.next, bufs: p.bufs },
                                Ok(pl) => sweep_spec(g, src, tptr, id, l1, sw, pl, result, p.bufs, p.ir, p.next),
                            }
                        },
                    }
                },
            }
        },
    }
}

/// A flow's sweep once planned: the comment that tells the split, then
/// one loop, or a scalar head, a vector body and a scalar tail.
pub open spec fn sweep_spec(
    g: GenV,
    src: ExprV,
    tptr: Seq<char>,
    id: nat,
    l1: Seq<char>,
    sw: LimitV,
    pl: Sweep,
    result: Seq<usize>,
    b: BuffersV,
    ir: Seq<char>,
    c: int,
) -> Pass {
    let fid = "f"@ + decimal(id);
    let ir1 = ir + "  ; Flow "@ + decimal(id) + ": sweep "@ + limit_text(sw) + " cells"@
        + describe_text(pl) + "\n"@;
    let scalar = Mode::Scalar(g.precision);
    match pl {
        Sweep::AllScalar => as_pass(
            range_spec(g, fid, l1, LimitV::Cells(0), sw, scalar, src, tptr, b, result, ir1, c),
            b,
        ),
        Sweep::Split { vector_start, vector_end, width, total } => {
            let h = range_spec(
                g,
                fid + ".head"@,
                l1,
                LimitV::Cells(0),
                LimitV::Cells(vector_start),
                scalar,
                src,
                tptr,
                b,
                result,
                ir1,
                c,
            );
            match h.res {
                Err(d) => as_pass(h, b),
                Ok(lh) => {
                    let v = range_spec(
                        g,
                        fid + ".vec"@,
                        lh,
                        LimitV::Cells(vector_start),
                        LimitV::Cells(vector_end),
                        Mode::Vector(width, g.precision),
                        src,
                        tptr,
                        b,
                        result,
                        h.ir,
                        h.next,
                    );
                    match v.res {
                        Err(d) => as_pass(v, b),
                        Ok(lv) => as_pass(
                            range_spec(
                                g,
                                fid + ".tail"@,
                                lv,
                                LimitV::Cells(vector_end),
                                LimitV::Cells(total),
                                scalar,
                                src,
                                tptr,
                                b,
                                result,
                                v.ir,
                                v.next,
                            ),
                            b,
                        ),
                    }
                },
            }
        },
    }
}

/// Each flow from statement `i` on as its own full sweep, up to the first
/// `→ =`; `id` flows came before.
pub open spec fn flows_from(
    g: GenV,
    stmts: Seq<StatementV>,
    lines: Seq<usize>,
    i: int,
    id: nat,
    pred: Seq<char>,
    b: BuffersV,
    ir: Seq<char>,
    c: int,
) -> Pass
    decreases stmts.len() - i,
{
    if i < 0 || i >= stmts.len() {
        Pass { res: Ok(pred), ir, next: c, bufs: b }
    } else {
        match stmts[i] {
            StatementV::Flow { src, target } => {
                let f = flow_spec(GenV { line: line_at(lines, i), ..g }, src, target, id + 1, pred, b, ir, c);
                match f.res {
                    Err(d) => f,
                    Ok(l) => if target is Equilibrium {
                        f
                    } else {
                        flows_from(g, stmts, lines, i + 1, id + 1, l, f.bufs, f.ir, f.next)
                    },
                }
            },
            _ => flows_from(g, stmts, lines, i + 1, id, pred, b, ir, c),
        }
    }
}

proof fn lemma_range_grows(
    g: GenV,
    label: Seq<char>,
    pred: Seq<char>,
    lo: LimitV,
    hi: LimitV,
    mode: Mode,
    src: ExprV,
    target_ptr: Seq<char>,
    b: BuffersV,
    result: Seq<usize>,
    ir: Seq<char>,
    c: int,
)
    ensures
        c <= range_spec(g, label, pred, lo, hi, mode, src, target_ptr, b, result, ir, c).next,
{
    reveal(range_spec);
    lemma_emit_grows_any(g, src, b, "%"@ + label + ".idx"@, mode, result, Seq::empty(), c);
}

proof fn lemma_sweep_grows(
    g: GenV,
    src: ExprV,
    tptr: Seq<char>,
    id: nat,
    l1: Seq<char>,
    sw: LimitV,
    pl: Sweep,
    result: Seq<usize>,
    b: BuffersV,
    ir: Seq<char>,
    c: int,
)
    ensures
        c <= sweep_spec(g, src, tptr, id, l1, sw, pl, result, b, ir, c).next,
        sweep_spec(g, src, tptr, id, l1, sw, pl, result, b, ir, c).bufs == b,
{
    let fid = "f"@ + decimal(id);
    let ir1 = ir + "  ; Flow "@ + decimal(id) + ": sweep "@ + limit_text(sw) + " cells"@ + describe_text(pl) + "\n"@;
    let scalar = Mode::Scalar(g.precision);
    match pl {
        Sweep::AllScalar => {
            lemma_range_grows(g, fid, l1, LimitV::Cells(0), sw, scalar, src, tptr, b, result, ir1, c);
        },
        Sweep::Split { vector_start, vector_end, width, total } => {
            let hl = fid + ".head"@;
            lemma_range_grows(g, hl, l1, LimitV::Cells(0), LimitV::Cells(vector_start), scalar, src, tptr, b, result, ir1, c);
            let h = range_spec(g, hl, l1, LimitV::Cells(0), LimitV::Cells(vector_start), scalar, src, tptr, b, result, ir1, c);
            if let Ok(lh) = h.res {
                let vm = Mode::Vector(width, g.precision);
                let vl = fid + ".vec"@;
                lemma_range_grows(g, vl, lh, LimitV::Cells(vector_start), LimitV::Cells(vector_end), vm, src, tptr, b, result, h.ir, h.next);
                let v = range_spec(g, vl, lh, LimitV::Cells(vector_start), LimitV::Cells(vector_end), vm, src, tptr, b, result, h.ir, h.next);
                if let Ok(lv) = v.res {
                    lemma_range_grows(g, fid + ".tail"@, lv, LimitV::Cells(vector_end), LimitV::Cells(total), scalar, src, tptr, b, result, v.ir, v.next);
                }
            }
        },
    }
}

proof fn lemma_flow_grows(g: GenV, src: ExprV, target: TargetV, id: nat, pred: Seq<char>, b: BuffersV, ir: Seq<char>, c: int)
    ensures
        c <= flow_spec(g, src, target, id, pred, b, ir, c).next,
        flow_spec(g, src, target, id, pred, b, ir, c).bufs.map == b.map,
        flow_spec(g, src, target, id, pred, b, ir, c).bufs.bound == b.bound,
        lookup_spec(b, crate::sv::target_name(target), g.line) is Ok ==> prepass(g, src, b, pred, ir, c).next <= flow_spec(
            g,
            src,
            target,
            id,
            pred,
            b,
            ir,
            c,
        ).next,
{
    reveal(flow_spec);
    let name = crate::sv::target_name(target);
    lemma_prepass_grows(g, src, b, pred, ir, c);
    if let Ok(tptr) = lookup_spec(b, name, g.line) {
        let p = prepass(g, src, b, pred, ir, c);
        if let Ok(l1) = p.res {
            let shape_opt = match shape_of_expr(src, g.shapes) {
                Some(sh) => Some(sh),
                None => if g.shapes.contains_key(name) {
                    Some(g.shapes[name])
                } else {
                    None
                },
            };
            if let Some(sw) = sweep_of(p.bufs, shape_opt, g.elements) {
                let result = match shape_opt {
                    Some(sh) => sh,
                    None => seq![g.elements],
                };
                let plan = if broadcast_read(g, src, result, Seq::empty()) {
                    Ok(Sweep::AllScalar)
                } else {
                    plan_spec(g, src, sw)
                };
                if let Ok(pl) = plan {
                    lemma_sweep_grows(g, src, tptr, id, l1, sw, pl, result, p.bufs, p.ir, p.next);
                }
            }
        }
    }
}

proof fn lemma_flows_grow(
    g: GenV,
    stmts: Seq<StatementV>,
    lines: Seq<usize>,
    i: int,
    id: nat,
    pred: Seq<char>,
    b: BuffersV,
    ir: Seq<char>,
    c: int,
)
    ensures
        c <= flows_from(g, stmts, lines, i, id, pred, b, ir, c).next,
        flows_from(g, stmts, lines, i, id, pred, b, ir, c).bufs.map == b.map,
        flows_from(g, stmts, lines, i, id, pred, b, ir, c).bufs.bound == b.bound,
    decreases stmts.len() - i,
{
    if 0 <= i < stmts.len() {
        match stmts[i] {
            StatementV::Flow { src, target } => {
                let gl = GenV { line: line_at(lines, i), ..g };
                lemma_flow_grows(gl, src, target, id + 1, pred, b, ir, c);
                let f = flow_spec(gl, src, target, id + 1, pred, b, ir, c);
                if let Ok(l) = f.res {
                    lemma_flows_grow(g, stmts, lines, i + 1, id + 1, l, f.bufs, f.ir, f.next);
                }
            },
            _ => lemma_flows_grow(g, stmts, lines, i + 1, id, pred, b, ir, c),
        }
    }
}


/// A shape that may be missing, by its view.
pub open spec fn dims_opt(s: Option<Vec<usize>>) -> Option<Seq<usize>> {
    match s {
        Some(v) => Some(v@),
        None => None,
    }
}

impl LlvmCodeGen {
    /// The sweep a flow runs over: see `sweep_of`.
    fn flow_sweep(&self, bufs: &Buffers, shape: &Option<Vec<usize>>) -> (r: Option<Limit>)
        ensures
            match r {
                Some(l) => sweep_of(bufs@, dims_opt(*shape), self@.elements) == Some(l@),
                None => sweep_of(bufs@, dims_opt(*shape), self@.elements) is None,
            },
    {
        let chars = chars_of(bufs.bound.as_str());
        if chars.len() > 0 && chars[0] == '%' {
            return Some(Limit::Symbol(bufs.bound.clone()));
        }
        match shape {
            Some(s) => match crate::sv::count_cells(s) {
                Some(n) => Some(Limit::Cells(n as u64)),
                None => None,
            },
            None => Some(Limit::Cells(self.elements as u64)),
        }
    }

    /// One flow: see `flow_spec`.
    fn emit_flow(
        &self,
        src: &Expr,
        target: &FlowTarget,
        id: usize,
        pred: &String,
        bufs: &mut Buffers,
        ir: &mut String,
        counter: &mut usize,
    ) -> (r: Result<String, HarmonyDisruption>)
        requires
            flow_spec(self@, src@, target_view(*target), id as nat, pred@, old(bufs)@, old(ir)@, *old(counter) as int).next
                <= usize::MAX,
        ensures
            ({
                let s = flow_spec(self@, src@, target_view(*target), id as nat, pred@, old(bufs)@, old(ir)@, *old(counter) as int);
                &&& final(ir)@ == s.ir
                &&& *final(counter) == s.next
                &&& final(bufs)@ == s.bufs
                &&& match r {
                    Ok(v) => s.res == Ok::<Seq<char>, DisruptionV>(v@),
                    Err(d) => s.res == Err::<Seq<char>, DisruptionV>(disruption_view(d)),
                }
            }),
    {
        reveal(flow_spec);
        let ghost g = self@;
        let ghost b0 = bufs@;
        let ghost ir0 = ir@;
        let ghost c0 = *counter as int;
        proof {
            lemma_flow_grows(g, src@, target_view(*target), id as nat, pred@, b0, ir0, c0);
        }
        let tname: String = match target {
            FlowTarget::Var(n) => n.clone(),
            FlowTarget::Equilibrium => {
                let mut o = String::new();
                push_str(&mut o, "OUTPUT");
                o
            },
        };
        assert(tname@ == crate::sv::target_name(target_view(*target)));
        let tptr = match self.lookup(bufs, &tname) {
            Ok(p) => p,
            Err(d) => return Err(d),
        };
        proof {
            lemma_prepass_grows(g, src@, b0, pred@, ir0, c0);
        }
        let l1 = match self.emit_fold_prepass(src, ir, bufs, pred, counter) {
            Ok(l) => l,
            Err(d) => return Err(d),
        };
        let shape: Option<Vec<usize>> = match crate::ast::expr_shape(src, &self.space_shapes) {
            Some(s) => Some(s),
            None => self.space_shapes.get(&tname),
        };
        let sw = match self.flow_sweep(bufs, &shape) {
            Some(l) => l,
            None => {
                let mut m = String::new();
                push_str(&mut m, "a shape whose cells overflow a machine word");
                return Err(HarmonyDisruption::LoweringErr { detail: m, line: self.current_line });
            },
        };
        let result: Vec<usize> = match &shape {
            Some(s) => s.clone(),
            None => {
                let v = vec![self.elements];
                assert(v@ =~= seq![self.elements]);
                v
            },
        };
        let no_lifts: Vec<usize> = Vec::new();
        assert(no_lifts@ =~= Seq::<usize>::empty());
        let plan = if self.needs_broadcast(src, &result, &no_lifts) {
            Sweep::AllScalar
        } else {
            match self.plan_sweep(src, &sw) {
                Ok(p) => p,
                Err(d) => return Err(d),
            }
        };
        self.emit_sweep(src, &tptr, id, &l1, &sw, plan, &result, bufs, ir, counter)
    }
}


impl LlvmCodeGen {
    /// A planned sweep: see `sweep_spec`.
    #[verifier::spinoff_prover]
    fn emit_sweep(
        &self,
        src: &Expr,
        tptr: &String,
        id: usize,
        l1: &String,
        sw: &Limit,
        plan: Sweep,
        result: &Vec<usize>,
        bufs: &Buffers,
        ir: &mut String,
        counter: &mut usize,
    ) -> (r: Result<String, HarmonyDisruption>)
        requires
            sweep_spec(self@, src@, tptr@, id as nat, l1@, sw@, plan, result@, bufs@, old(ir)@, *old(counter) as int).next
                <= usize::MAX,
        ensures
            ({
                let s = sweep_spec(self@, src@, tptr@, id as nat, l1@, sw@, plan, result@, bufs@, old(ir)@, *old(counter) as int);
                &&& final(ir)@ == s.ir
                &&& *final(counter) == s.next
                &&& s.bufs == bufs@
                &&& match r {
                    Ok(v) => s.res == Ok::<Seq<char>, DisruptionV>(v@),
                    Err(d) => s.res == Err::<Seq<char>, DisruptionV>(disruption_view(d)),
                }
            }),
    {
        let mut fid = String::new();
        push_str(&mut fid, "f");
        push_decimal(&mut fid, id as u64);
        push_str(ir, "  ; Flow ");
        push_decimal(ir, id as u64);
        push_str(ir, ": sweep ");
        push_limit(ir, sw);
        push_str(ir, " cells");
        let told = plan.describe();
        push_str(ir, told.as_str());
        push_str(ir, "\n");
        let scalar = Mode::Scalar(self.precision);
        let zero = Limit::Cells(0);
        assert(fid@ =~= "f"@ + decimal(id as nat));
        assert(told@ == describe_text(plan));
        assert(ir@ == old(ir)@ + "  ; Flow "@ + decimal(id as nat) + ": sweep "@ + limit_text(sw@) + " cells"@ + describe_text(plan)
            + "\n"@);
        proof {
            lemma_sweep_grows(self@, src@, tptr@, id as nat, l1@, sw@, plan, result@, bufs@, old(ir)@, *old(counter) as int);
        }
        match plan {
            Sweep::AllScalar => self.emit_range_loop(ir, &fid, l1, &zero, sw, scalar, src, tptr, bufs, counter, result),
            Sweep::Split { vector_start, vector_end, width, total } => {
                let mut head = fid.clone();
                push_str(&mut head, ".head");
                assert(head@ == fid@ + ".head"@);
                let mid = Limit::Cells(vector_start);
                proof {
                    let h = range_spec(self@, head@, l1@, zero@, mid@, scalar, src@, tptr@, bufs@, result@, ir@, *counter as int);
                    if let Ok(lh) = h.res {
                        let vm = Mode::Vector(width, self.precision);
                        let vl = fid@ + ".vec"@;
                        lemma_range_grows(self@, vl, lh, mid@, LimitV::Cells(vector_end), vm, src@, tptr@, bufs@, result@, h.ir, h.next);
                        let v = range_spec(self@, vl, lh, mid@, LimitV::Cells(vector_end), vm, src@, tptr@, bufs@, result@, h.ir, h.next);
                        if let Ok(lv) = v.res {
                            lemma_range_grows(
                                self@,
                                fid@ + ".tail"@,
                                lv,
                                LimitV::Cells(vector_end),
                                LimitV::Cells(total),
                                scalar,
                                src@,
                                tptr@,
                                bufs@,
                                result@,
                                v.ir,
                                v.next,
                            );
                        }
                    }
                }
                let lh = match self.emit_range_loop(ir, &head, l1, &zero, &mid, scalar, src, tptr, bufs, counter, result) {
                    Ok(l) => l,
                    Err(d) => return Err(d),
                };
                let mut body = fid.clone();
                push_str(&mut body, ".vec");
                assert(body@ == fid@ + ".vec"@);
                let end = Limit::Cells(vector_end);
                proof {
                    lemma_range_grows(
                        self@,
                        body@,
                        lh@,
                        mid@,
                        end@,
                        Mode::Vector(width, self.precision),
                        src@,
                        tptr@,
                        bufs@,
                        result@,
                        ir@,
                        *counter as int,
                    );
                }
                let lv = match self.emit_range_loop(
                    ir,
                    &body,
                    &lh,
                    &mid,
                    &end,
                    Mode::Vector(width, self.precision),
                    src,
                    tptr,
                    bufs,
                    counter,
                    result,
                ) {
                    Ok(l) => l,
                    Err(d) => return Err(d),
                };
                let mut tail = fid.clone();
                push_str(&mut tail, ".tail");
                let all = Limit::Cells(total);
                assert(tail@ == fid@ + ".tail"@);
                self.emit_range_loop(ir, &tail, &lv, &end, &all, scalar, src, tptr, bufs, counter, result)
            },
        }
    }
}


impl LlvmCodeGen {
    /// Every flow of `block` as its own full sweep, up to the first `→ =`,
    /// each lowered at its own line; `entry` is the label control starts
    /// from, and the label it reaches at the end comes back. See
    /// `flows_from`.
    pub fn emit_flows(
        &mut self,
        block: &ToposBlock,
        ir: &mut String,
        bufs: &mut Buffers,
        entry: &String,
        counter: &mut usize,
    ) -> (r: Result<String, HarmonyDisruption>)
        requires
            flows_from(
                old(self)@,
                statements_view(block.statements@),
                block.lines@,
                0,
                0,
                entry@,
                old(bufs)@,
                old(ir)@,
                *old(counter) as int,
            ).next <= usize::MAX,
        ensures
            final(self)@ == old(self)@,
            ({
                let s = flows_from(
                    old(self)@,
                    statements_view(block.statements@),
                    block.lines@,
                    0,
                    0,
                    entry@,
                    old(bufs)@,
                    old(ir)@,
                    *old(counter) as int,
                );
                &&& final(ir)@ == s.ir
                &&& *final(counter) == s.next
                &&& final(bufs)@ == s.bufs
                &&& match r {
                    Ok(v) => s.res == Ok::<Seq<char>, DisruptionV>(v@),
                    Err(d) => s.res == Err::<Seq<char>, DisruptionV>(disruption_view(d)),
                }
            }),
    {
        let ghost g = self@;
        let ghost sv = statements_view(block.statements@);
        let ghost whole = flows_from(g, sv, block.lines@, 0, 0, entry@, bufs@, ir@, *counter as int);
        let saved = self.current_line;
        let mut i: usize = 0;
        let mut id: usize = 0;
        let mut cur = entry.clone();
        while i < block.statements.len()
            invariant
                i <= block.statements.len(),
                id <= i,
                sv == statements_view(block.statements@),
                self@ == (GenV { line: self@.line, ..g }),
                saved == g.line,
                g == old(self)@,
                whole == flows_from(g, sv, block.lines@, 0, 0, entry@, old(bufs)@, old(ir)@, *old(counter) as int),
                whole == flows_from(g, sv, block.lines@, i as int, id as nat, cur@, bufs@, ir@, *counter as int),
                whole.next <= usize::MAX,
            decreases block.statements.len() - i,
        {
            assert(sv[i as int] == statement_view(block.statements@[i as int]));
            match &block.statements[i] {
                Statement::Flow { src, target } => {
                    let line = block.line_of(i);
                    self.set_line(line);
                    assert(self@ == (GenV { line: line_at(block.lines@, i as int), ..g }));
                    proof {
                        lemma_flow_grows(self@, src@, target_view(*target), (id + 1) as nat, cur@, bufs@, ir@, *counter as int);
                        let f = flow_spec(self@, src@, target_view(*target), (id + 1) as nat, cur@, bufs@, ir@, *counter as int);
                        if let Ok(l) = f.res {
                            lemma_flows_grow(g, sv, block.lines@, i + 1, (id + 1) as nat, l, f.bufs, f.ir, f.next);
                        }
                    }
                    let ghost f = flow_spec(self@, src@, target_view(*target), (id + 1) as nat, cur@, bufs@, ir@, *counter as int);
                    assert(sv[i as int] == (StatementV::Flow { src: src@, target: target_view(*target) }));
                    assert(whole == (if f.res is Err || target_view(*target) is Equilibrium {
                        f
                    } else {
                        flows_from(g, sv, block.lines@, i + 1, (id + 1) as nat, f.res->Ok_0, f.bufs, f.ir, f.next)
                    }));
                    match self.emit_flow(src, target, id + 1, &cur, bufs, ir, counter) {
                        Err(d) => {
                            self.set_line(saved);
                            assert(self@ == g);
                            return Err(d);
                        },
                        Ok(l) => {
                            match target {
                                FlowTarget::Equilibrium => {
                                    self.set_line(saved);
                                    assert(self@ == g);
                                    return Ok(l);
                                },
                                FlowTarget::Var(_) => {
                                    cur = l;
                                    id = id + 1;
                                },
                            }
                        },
                    }
                },
                _ => {},
            }
            i = i + 1;
        }
        self.set_line(saved);
        assert(self@ == g);
        Ok(cur)
    }
}

} // verus!
