//! Reading back the text of an emitted module: its functions, their blocks
//! and instructions, and the operand lists an instruction holds.

use vstd::prelude::*;
use vstd::slice::{slice_subrange, slice_to_vec};
use crate::lexer::{lines_of, split_lines, split_words, words_of};
use crate::statement::{char_index, char_position, lemma_char_index};
use crate::text::{chars_of, lemma_trim_len, string_from, trim, trim_range};


verus! {

/// A labelled block and its instructions, in order.
pub struct Block {
    pub label: String,
    pub instructions: Vec<String>,
}

/// A function of the module: its name, its parameters' names, its blocks.
pub struct Function {
    pub name: String,
    pub params: Vec<String>,
    pub blocks: Vec<Block>,
}

pub struct BlockV {
    pub label: Seq<char>,
    pub instructions: Seq<Seq<char>>,
}

pub struct FunctionV {
    pub name: Seq<char>,
    pub params: Seq<Seq<char>>,
    pub blocks: Seq<BlockV>,
}

pub open spec fn texts(v: Seq<String>) -> Seq<Seq<char>> {
    v.map_values(|s: String| s@)
}

pub open spec fn block_view(b: Block) -> BlockV {
    BlockV { label: b.label@, instructions: texts(b.instructions@) }
}

pub open spec fn function_view(f: Function) -> FunctionV {
    FunctionV { name: f.name@, params: texts(f.params@), blocks: f.blocks@.map_values(|b: Block| block_view(b)) }
}

/// The text before the first `c`: the first piece `split(c)` gives.
pub open spec fn before(s: Seq<char>, c: char) -> Seq<char> {
    match char_index(s, c) {
        Some(i) => s.take(i),
        None => s,
    }
}

/// The second piece `split(c)` gives, if there is one.
pub open spec fn second_piece(s: Seq<char>, c: char) -> Option<Seq<char>> {
    match char_index(s, c) {
        Some(i) => Some(before(s.skip(i + 1), c)),
        None => None,
    }
}

/// Every piece `split(c)` gives.
pub open spec fn pieces(s: Seq<char>, c: char) -> Seq<Seq<char>>
    decreases s.len(),
{
    match char_index(s, c) {
        Some(i) => if 0 <= i < s.len() {
            seq![s.take(i)] + pieces(s.skip(i + 1), c)
        } else {
            seq![s]
        },
        None => seq![s],
    }
}

/// The second word of each piece that has one.
pub open spec fn second_words(ps: Seq<Seq<char>>) -> Seq<Seq<char>>
    decreases ps.len(),
{
    if ps.len() == 0 {
        Seq::empty()
    } else {
        let ws = words_of(ps.last());
        second_words(ps.drop_last()) + if ws.len() >= 2 {
            seq![ws[1]]
        } else {
            Seq::empty()
        }
    }
}

/// The name a `define` line gives: between the first `@` and the next `(`.
pub open spec fn defined_name(rest: Seq<char>) -> Seq<char> {
    match second_piece(rest, '@') {
        Some(p) => before(p, '('),
        None => Seq::empty(),
    }
}

/// The parameters a `define` line names: the second word of each
/// comma-separated part between the first `(` and the first `)` after it.
pub open spec fn defined_params(rest: Seq<char>) -> Seq<Seq<char>> {
    match second_piece(rest, '(') {
        Some(p) => second_words(pieces(before(p, ')'), ',')),
        None => Seq::empty(),
    }
}

/// A line without its comment, trimmed.
pub open spec fn cleaned(raw: Seq<char>) -> Seq<char> {
    trim(before(raw, ';'))
}

pub open spec fn is_define(l: Seq<char>) -> bool {
    l.len() >= 7 && l.take(7) == "define "@
}

/// `label:`: ends in a colon and has no space in it.
pub open spec fn is_label(l: Seq<char>) -> bool {
    l.len() > 0 && l.last() == ':' && !l.contains(' ')
}

/// The text with every colon at its end taken off.
pub open spec fn without_colons(l: Seq<char>) -> Seq<char>
    decreases l.len(),
{
    if l.len() > 0 && l.last() == ':' {
        without_colons(l.drop_last())
    } else {
        l
    }
}

/// A line of a function's body: a label opens a block, anything else goes
/// into the last block, opening `%entry` first when there is none.
pub open spec fn add_line(f: FunctionV, l: Seq<char>) -> FunctionV {
    if is_label(l) {
        FunctionV {
            name: f.name,
            params: f.params,
            blocks: f.blocks.push(BlockV { label: seq!['%'] + without_colons(l), instructions: Seq::empty() }),
        }
    } else {
        let blocks = if f.blocks.len() == 0 {
            seq![BlockV { label: "%entry"@, instructions: Seq::empty() }]
        } else {
            f.blocks
        };
        let last = blocks.last();
        FunctionV {
            name: f.name,
            params: f.params,
            blocks: blocks.update(
                blocks.len() - 1,
                BlockV { label: last.label, instructions: last.instructions.push(l) },
            ),
        }
    }
}

/// The functions closed so far, and the one being read.
pub struct ModuleV {
    pub functions: Seq<FunctionV>,
    pub current: Option<FunctionV>,
}

pub open spec fn read_line(st: ModuleV, raw: Seq<char>) -> ModuleV {
    let l = cleaned(raw);
    if l.len() == 0 {
        st
    } else if is_define(l) {
        let rest = l.skip(7);
        ModuleV {
            functions: st.functions,
            current: Some(FunctionV { name: defined_name(rest), params: defined_params(rest), blocks: Seq::empty() }),
        }
    } else if l == seq!['}'] {
        match st.current {
            Some(f) => ModuleV { functions: st.functions.push(f), current: None },
            None => st,
        }
    } else {
        match st.current {
            Some(f) => ModuleV { functions: st.functions, current: Some(add_line(f, l)) },
            None => st,
        }
    }
}

pub open spec fn read_lines(lines: Seq<Seq<char>>, k: int) -> ModuleV
    decreases k,
{
    if k <= 0 {
        ModuleV { functions: Seq::empty(), current: None }
    } else {
        read_line(read_lines(lines, k - 1), lines[k - 1])
    }
}

/// The functions of a module, each with its blocks in order; a function
/// left open at the end of the text is not one.
pub open spec fn module_spec(ir: Seq<char>) -> Seq<FunctionV> {
    read_lines(lines_of(ir), lines_of(ir).len() as int).functions
}

/// The text before the first `c`.
fn before_char(s: &[char], c: char) -> (r: Vec<char>)
    ensures
        r@ == before(s@, c),
{
    match char_position(s, c) {
        Some(i) => {
            proof {
                lemma_char_index(s@, c);
            }
            let v = slice_subrange(s, 0, i);
            let out = slice_to_vec(v);
            assert(out@ =~= s@.take(i as int));
            out
        },
        None => slice_to_vec(s),
    }
}

/// The text after the first `c`, if `c` occurs.
fn after_char(s: &[char], c: char) -> (r: Option<Vec<char>>)
    ensures
        match r {
            Some(t) => char_index(s@, c) matches Some(i) && t@ == s@.skip(i + 1),
            None => char_index(s@, c) is None,
        },
{
    match char_position(s, c) {
        Some(i) => {
            proof {
                lemma_char_index(s@, c);
            }
            assert(i < s.len());
            let v = slice_subrange(s, i + 1, s.len());
            let out = slice_to_vec(v);
            assert(out@ =~= s@.skip(i + 1));
            Some(out)
        },
        None => None,
    }
}

fn second_piece_of(s: &[char], c: char) -> (r: Option<Vec<char>>)
    ensures
        match r {
            Some(t) => second_piece(s@, c) == Some(t@),
            None => second_piece(s@, c) is None,
        },
{
    match after_char(s, c) {
        Some(t) => Some(before_char(t.as_slice(), c)),
        None => None,
    }
}

/// Every piece `split(c)` gives.
pub fn split_pieces(s: &[char], c: char) -> (r: Vec<Vec<char>>)
    ensures
        r@.map_values(|p: Vec<char>| p@) == pieces(s@, c),
{
    let mut out: Vec<Vec<char>> = Vec::new();
    let mut rest: Vec<char> = slice_to_vec(s);
    assert(out@.map_values(|p: Vec<char>| p@) + pieces(rest@, c) =~= pieces(s@, c));
    loop
        invariant_except_break
            out@.map_values(|p: Vec<char>| p@) + pieces(rest@, c) == pieces(s@, c),
        ensures
            out@.map_values(|p: Vec<char>| p@) == pieces(s@, c),
        decreases rest.len(),
    {
        match char_position(rest.as_slice(), c) {
            Some(i) => {
                proof {
                    lemma_char_index(rest@, c);
                }
                let head = slice_to_vec(slice_subrange(rest.as_slice(), 0, i));
                let tail = slice_to_vec(slice_subrange(rest.as_slice(), i + 1, rest.len()));
                assert(head@ =~= rest@.take(i as int));
                assert(tail@ =~= rest@.skip(i + 1));
                let ghost before_out = out@.map_values(|p: Vec<char>| p@);
                out.push(head);
                assert(out@.map_values(|p: Vec<char>| p@) =~= before_out.push(rest@.take(i as int)));
                assert(before_out + pieces(rest@, c) =~= before_out.push(rest@.take(i as int)) + pieces(tail@, c));
                rest = tail;
            },
            None => {
                let ghost before_out = out@.map_values(|p: Vec<char>| p@);
                out.push(rest);
                assert(out@.map_values(|p: Vec<char>| p@) =~= before_out + pieces(rest@, c));
                break;
            },
        }
    }
    out
}

/// The second word of each piece that has one.
fn second_words_of(ps: &Vec<Vec<char>>) -> (r: Vec<String>)
    ensures
        texts(r@) == second_words(ps@.map_values(|p: Vec<char>| p@)),
{
    let ghost pv = ps@.map_values(|p: Vec<char>| p@);
    let mut out: Vec<String> = Vec::new();
    let mut k: usize = 0;
    assert(pv.subrange(0, 0) =~= Seq::<Seq<char>>::empty());
    while k < ps.len()
        invariant
            k <= ps.len(),
            pv == ps@.map_values(|p: Vec<char>| p@),
            texts(out@) == second_words(pv.subrange(0, k as int)),
        decreases ps.len() - k,
    {
        assert(pv.subrange(0, k as int + 1).drop_last() =~= pv.subrange(0, k as int));
        assert(pv.subrange(0, k as int + 1).last() == ps@[k as int]@);
        let ws = split_words(ps[k].as_slice());
        let ghost before_out = texts(out@);
        if ws.len() >= 2 {
            assert(ws@[1]@ == words_of(ps@[k as int]@)[1]);
            out.push(string_from(ws[1].as_slice()));
            assert(texts(out@) =~= before_out + seq![words_of(ps@[k as int]@)[1]]);
        } else {
            assert(texts(out@) =~= before_out + Seq::<Seq<char>>::empty());
        }
        k = k + 1;
    }
    assert(pv.subrange(0, ps.len() as int) =~= pv);
    out
}

/// The text with every colon at its end taken off.
fn strip_colons(l: &[char]) -> (r: Vec<char>)
    ensures
        r@ == without_colons(l@),
{
    let mut n = l.len();
    assert(l@.take(l.len() as int) =~= l@);
    while n > 0 && l[n - 1] == ':'
        invariant
            n <= l.len(),
            without_colons(l@) == without_colons(l@.take(n as int)),
        decreases n,
    {
        assert(l@.take(n as int).drop_last() =~= l@.take(n as int - 1));
        n = n - 1;
    }
    let out = slice_to_vec(slice_subrange(l, 0, n));
    assert(out@ =~= l@.take(n as int));
    assert(l@.take(l.len() as int) =~= l@);
    out
}

fn has_space(l: &[char]) -> (r: bool)
    ensures
        r == l@.contains(' '),
{
    match char_position(l, ' ') {
        Some(i) => {
            proof {
                lemma_char_index(l@, ' ');
            }
            true
        },
        None => {
            proof {
                lemma_char_index(l@, ' ');
            }
            false
        },
    }
}

fn texts_of(v: &Vec<String>) -> (r: Vec<String>)
    ensures
        texts(r@) == texts(v@),
{
    let mut out: Vec<String> = Vec::new();
    let mut k: usize = 0;
    while k < v.len()
        invariant
            k <= v.len(),
            texts(out@) == texts(v@.subrange(0, k as int)),
        decreases v.len() - k,
    {
        let ghost before_out = texts(out@);
        out.push(string_from(chars_of(v[k].as_str()).as_slice()));
        assert(texts(out@) =~= before_out.push(v@[k as int]@));
        assert(texts(v@.subrange(0, k as int + 1)) =~= texts(v@.subrange(0, k as int)).push(v@[k as int]@));
        k = k + 1;
    }
    assert(v@.subrange(0, v.len() as int) =~= v@);
    out
}

/// One line of a function's body added to it.
fn add_body_line(f: &mut Function, l: Vec<char>)
    ensures
        function_view(*final(f)) == add_line(function_view(*old(f)), l@),
{
    let ghost fv = function_view(*f);
    if l.len() > 0 && l[l.len() - 1] == ':' && !has_space(l.as_slice()) {
        let mut label = String::new();
        crate::text::push_char(&mut label, '%');
        let bare = strip_colons(l.as_slice());
        crate::text::push_chars(&mut label, bare.as_slice());
        assert(label@ =~= seq!['%'] + without_colons(l@));
        let none: Vec<String> = Vec::new();
        assert(texts(none@) =~= Seq::<Seq<char>>::empty());
        f.blocks.push(Block { label, instructions: none });
        proof {
            assert(f.blocks@.map_values(|b: Block| block_view(b)) =~= fv.blocks.push(
                BlockV { label: seq!['%'] + without_colons(l@), instructions: Seq::empty() },
            ));
        }
    } else {
        if f.blocks.len() == 0 {
            let none: Vec<String> = Vec::new();
            assert(texts(none@) =~= Seq::<Seq<char>>::empty());
            f.blocks.push(Block { label: String::from_str("%entry"), instructions: none });
            proof {
                assert(f.blocks@.map_values(|b: Block| block_view(b)) =~= seq![
                    BlockV { label: "%entry"@, instructions: Seq::empty() },
                ]);
            }
        }
        let ghost blocks = f.blocks@.map_values(|b: Block| block_view(b));
        let last = f.blocks.len() - 1;
        let label = f.blocks[last].label.clone();
        let mut instructions = texts_of(&f.blocks[last].instructions);
        let ghost before_ins = texts(instructions@);
        instructions.push(string_from(l.as_slice()));
        assert(texts(instructions@) =~= before_ins.push(l@));
        f.blocks.set(last, Block { label, instructions });
        proof {
            assert(f.blocks@.map_values(|b: Block| block_view(b)) =~= blocks.update(
                last as int,
                BlockV { label: blocks.last().label, instructions: blocks.last().instructions.push(l@) },
            ));
        }
    }
}

fn clean_line(raw: &[char]) -> (r: Vec<char>)
    ensures
        r@ == cleaned(raw@),
{
    let b = before_char(raw, ';');
    let (lo, hi) = trim_range(b.as_slice(), 0, b.len());
    assert(b@.subrange(0, b.len() as int) =~= b@);
    let out = slice_to_vec(slice_subrange(b.as_slice(), lo, hi));
    out
}

/// Splits a module into its functions, each block's instructions in order.
pub fn parse_module(ir: &str) -> (r: Vec<Function>)
    ensures
        r@.map_values(|f: Function| function_view(f)) == module_spec(ir@),
{
    let text = chars_of(ir);
    let lines = split_lines(text.as_slice());
    let ghost lv = lines@.map_values(|l: Vec<char>| l@);
    let mut functions: Vec<Function> = Vec::new();
    assert(functions@.map_values(|f: Function| function_view(f)) =~= Seq::<FunctionV>::empty());
    let mut current: Option<Function> = None;
    let mut k: usize = 0;
    while k < lines.len()
        invariant
            k <= lines.len(),
            lv == lines@.map_values(|l: Vec<char>| l@),
            lv == lines_of(ir@),
            (ModuleV {
                functions: functions@.map_values(|f: Function| function_view(f)),
                current: match current {
                    Some(f) => Some(function_view(f)),
                    None => None,
                },
            }) == read_lines(lv, k as int),
        decreases lines.len() - k,
    {
        assert(lv[k as int] == lines@[k as int]@);
        let l = clean_line(lines[k].as_slice());
        let dv = chars_of("define ");
        let is_def = if l.len() >= 7 {
            let head = slice_subrange(l.as_slice(), 0, 7);
            assert(head@ =~= l@.take(7));
            crate::text::seq_eq(head, dv.as_slice())
        } else {
            false
        };
        if l.len() == 0 {
        } else if is_def {
            let rest = slice_to_vec(slice_subrange(l.as_slice(), 7, l.len()));
            assert(rest@ =~= l@.skip(7));
            let name = match second_piece_of(rest.as_slice(), '@') {
                Some(p) => string_from(before_char(p.as_slice(), '(').as_slice()),
                None => String::new(),
            };
            let params = match second_piece_of(rest.as_slice(), '(') {
                Some(p) => {
                    let inner = before_char(p.as_slice(), ')');
                    let parts = split_pieces(inner.as_slice(), ',');
                    second_words_of(&parts)
                },
                None => {
                    let v: Vec<String> = Vec::new();
                    assert(texts(v@) =~= Seq::<Seq<char>>::empty());
                    v
                },
            };
            let f = Function { name, params, blocks: Vec::new() };
            assert(f.blocks@.map_values(|b: Block| block_view(b)) =~= Seq::<BlockV>::empty());
            current = Some(f);
        } else if l.len() == 1 && l[0] == '}' {
            assert(l@ =~= seq!['}']);
            match current {
                Some(f) => {
                    let ghost before_fs = functions@.map_values(|f: Function| function_view(f));
                    functions.push(f);
                    assert(functions@.map_values(|f: Function| function_view(f)) =~= before_fs.push(function_view(f)));
                    current = None;
                },
                None => {
                    current = None;
                },
            }
        } else {
            proof {
                if l@ == seq!['}'] {
                    assert(l@.len() == 1 && l@[0] == '}');
                }
            }
            match current {
                Some(mut f) => {
                    add_body_line(&mut f, l);
                    current = Some(f);
                },
                None => {
                    current = None;
                },
            }
        }
        k = k + 1;
    }
    functions
}

/// Splits at the commas outside `<>`, `[]` and `()`, each part trimmed.
pub open spec fn fields_from(s: Seq<char>, i: int, start: int, depth: int, done: Seq<Seq<char>>) -> Seq<Seq<char>>
    decreases s.len() - i,
{
    if i < 0 || i >= s.len() || start > i {
        done.push(trim(s.subrange(start, s.len() as int)))
    } else {
        let c = s[i];
        if c == '<' || c == '[' || c == '(' {
            fields_from(s, i + 1, start, depth + 1, done)
        } else if c == '>' || c == ']' || c == ')' {
            fields_from(s, i + 1, start, depth - 1, done)
        } else if c == ',' && depth == 0 {
            fields_from(s, i + 1, i + 1, depth, done.push(trim(s.subrange(start, i))))
        } else {
            fields_from(s, i + 1, start, depth, done)
        }
    }
}

pub open spec fn fields(s: Seq<char>) -> Seq<Seq<char>> {
    fields_from(s, 0, 0, 0, Seq::empty())
}

/// The operands of an instruction, split at its top-level commas.
pub fn split_fields(text: &[char]) -> (r: Vec<Vec<char>>)
    requires
        text.len() < i64::MAX,
    ensures
        r@.map_values(|f: Vec<char>| f@) == fields(text@),
{
    let mut out: Vec<Vec<char>> = Vec::new();
    assert(out@.map_values(|f: Vec<char>| f@) =~= Seq::<Seq<char>>::empty());
    let mut depth: i64 = 0;
    let mut start: usize = 0;
    let mut i: usize = 0;
    while i < text.len()
        invariant
            start <= i <= text.len(),
            text.len() < i64::MAX,
            -(i as int) <= depth <= i,
            fields_from(text@, i as int, start as int, depth as int, out@.map_values(|f: Vec<char>| f@)) == fields(
                text@,
            ),
        decreases text.len() - i,
    {
        let c = text[i];
        if c == '<' || c == '[' || c == '(' {
            depth = depth + 1;
        } else if c == '>' || c == ']' || c == ')' {
            depth = depth - 1;
        } else if c == ',' && depth == 0 {
            let (a, b) = trim_range(text, start, i);
            let ghost before_out = out@.map_values(|f: Vec<char>| f@);
            out.push(slice_to_vec(slice_subrange(text, a, b)));
            assert(out@.map_values(|f: Vec<char>| f@) =~= before_out.push(trim(text@.subrange(start as int, i as int))));
            start = i + 1;
        }
        i = i + 1;
    }
    let (a, b) = trim_range(text, start, text.len());
    let ghost before_out = out@.map_values(|f: Vec<char>| f@);
    out.push(slice_to_vec(slice_subrange(text, a, b)));
    assert(out@.map_values(|f: Vec<char>| f@) =~= before_out.push(trim(text@.subrange(start as int, text.len() as int))));
    out
}

/// `<type> <token>` split where the type may itself hold spaces: through
/// the first `>` when there is one, else at the first space.
pub open spec fn typed_split(text: Seq<char>) -> (Seq<char>, Seq<char>) {
    let t = trim(text);
    match char_index(t, '>') {
        Some(e) => (trim(t.take(e + 1)), trim(t.skip(e + 1))),
        None => match char_index(t, ' ') {
            Some(i) => (trim(t.take(i)), trim(t.skip(i + 1))),
            None => (Seq::empty(), t),
        },
    }
}

fn trimmed(s: &[char]) -> (r: Vec<char>)
    ensures
        r@ == trim(s@),
{
    let (a, b) = trim_range(s, 0, s.len());
    assert(s@.subrange(0, s.len() as int) =~= s@);
    slice_to_vec(slice_subrange(s, a, b))
}

/// A typed operand split into its type and its token.
pub fn split_typed(text: &[char]) -> (r: (Vec<char>, Vec<char>))
    ensures
        (r.0@, r.1@) == typed_split(text@),
{
    let t = trimmed(text);
    match char_position(t.as_slice(), '>') {
        Some(e) => {
            proof {
                lemma_char_index(t@, '>');
            }
            assert(e < t.len());
            let head = slice_subrange(t.as_slice(), 0, e + 1);
            let tail = slice_subrange(t.as_slice(), e + 1, t.len());
            assert(head@ =~= t@.take(e + 1));
            assert(tail@ =~= t@.skip(e + 1));
            (trimmed(head), trimmed(tail))
        },
        None => match char_position(t.as_slice(), ' ') {
            Some(i) => {
                proof {
                    lemma_char_index(t@, ' ');
                }
                assert(i < t.len());
                let head = slice_subrange(t.as_slice(), 0, i);
                let tail = slice_subrange(t.as_slice(), i + 1, t.len());
                assert(head@ =~= t@.take(i as int));
                assert(tail@ =~= t@.skip(i + 1));
                (trimmed(head), trimmed(tail))
            },
            None => (Vec::new(), t),
        },
    }
}

/// Where `c` last occurs in `s`.
pub open spec fn last_index(s: Seq<char>, c: char) -> Option<int>
    decreases s.len(),
{
    if s.len() == 0 {
        None
    } else if s.last() == c {
        Some(s.len() - 1)
    } else {
        last_index(s.drop_last(), c)
    }
}

/// The text of a call's argument list: after the first `(` and before the
/// last `)` after it; nothing when either is missing.
pub open spec fn argument_text(body: Seq<char>) -> Seq<char> {
    match char_index(body, '(') {
        Some(i) => {
            let r = body.skip(i + 1);
            match last_index(r, ')') {
                Some(j) => r.take(j),
                None => Seq::empty(),
            }
        },
        None => Seq::empty(),
    }
}

/// The tokens a call passes, each without its type.
pub open spec fn call_args(body: Seq<char>) -> Seq<Seq<char>> {
    fields(argument_text(body)).map_values(|f: Seq<char>| typed_split(f).1)
}

fn last_position(s: &[char], c: char) -> (r: Option<usize>)
    ensures
        match r {
            Some(j) => last_index(s@, c) == Some(j as int) && j < s.len(),
            None => last_index(s@, c) is None,
        },
{
    let mut n = s.len();
    assert(s@.take(s.len() as int) =~= s@);
    while n > 0
        invariant
            n <= s.len(),
            last_index(s@, c) == last_index(s@.take(n as int), c),
        decreases n,
    {
        assert(s@.take(n as int).drop_last() =~= s@.take(n as int - 1));
        if s[n - 1] == c {
            return Some(n - 1);
        }
        n = n - 1;
    }
    None
}

/// The tokens a call passes, each without its type.
pub fn call_arguments(body: &[char]) -> (r: Vec<Vec<char>>)
    requires
        body.len() < i64::MAX,
    ensures
        r@.map_values(|a: Vec<char>| a@) == call_args(body@),
{
    let inner: Vec<char> = match after_char(body, '(') {
        Some(r) => match last_position(r.as_slice(), ')') {
            Some(j) => {
                proof {
                    lemma_char_index(body@, '(');
                }
                let v = slice_to_vec(slice_subrange(r.as_slice(), 0, j));
                assert(v@ =~= r@.take(j as int));
                assert(v.len() <= body.len());
                v
            },
            None => Vec::new(),
        },
        None => Vec::new(),
    };
    assert(inner@ == argument_text(body@));
    let fs = split_fields(inner.as_slice());
    let ghost fv = fs@.map_values(|f: Vec<char>| f@);
    let mut out: Vec<Vec<char>> = Vec::new();
    let mut k: usize = 0;
    while k < fs.len()
        invariant
            k <= fs.len(),
            fv == fs@.map_values(|f: Vec<char>| f@),
            out@.map_values(|a: Vec<char>| a@) == fv.subrange(0, k as int).map_values(|f: Seq<char>| typed_split(f).1),
        decreases fs.len() - k,
    {
        let (_, token) = split_typed(fs[k].as_slice());
        let ghost before_out = out@.map_values(|a: Vec<char>| a@);
        out.push(token);
        assert(out@.map_values(|a: Vec<char>| a@) =~= before_out.push(typed_split(fv[k as int]).1));
        assert(fv.subrange(0, k as int + 1).map_values(|f: Seq<char>| typed_split(f).1) =~= fv.subrange(0, k as int).map_values(
            |f: Seq<char>| typed_split(f).1,
        ).push(typed_split(fv[k as int]).1));
        k = k + 1;
    }
    assert(fv.subrange(0, fs.len() as int) =~= fv);
    out
}

/// `<type> <a>, <b>`: the type both operands share, and the two operands;
/// an operand that is missing is empty.
pub open spec fn typed_operands(rest: Seq<char>) -> (Seq<char>, Seq<char>, Seq<char>) {
    let (ty, tail) = typed_split(rest);
    let fs = fields(tail);
    (ty, if fs.len() > 0 { fs[0] } else { Seq::empty() }, if fs.len() > 1 { fs[1] } else { Seq::empty() })
}

pub fn typed_pair(rest: &[char]) -> (r: (Vec<char>, Vec<char>, Vec<char>))
    requires
        rest.len() < i64::MAX,
    ensures
        (r.0@, r.1@, r.2@) == typed_operands(rest@),
{
    let (ty, tail) = split_typed(rest);
    proof {
        lemma_typed_tail_len(rest@);
    }
    let fs = split_fields(tail.as_slice());
    let ghost fv = fs@.map_values(|f: Vec<char>| f@);
    let a = if fs.len() > 0 {
        assert(fv[0] == fs@[0]@);
        slice_to_vec(fs[0].as_slice())
    } else {
        Vec::new()
    };
    let b = if fs.len() > 1 {
        assert(fv[1] == fs@[1]@);
        slice_to_vec(fs[1].as_slice())
    } else {
        Vec::new()
    };
    (ty, a, b)
}

proof fn lemma_typed_tail_len(text: Seq<char>)
    ensures
        typed_split(text).1.len() <= text.len(),
{
    let t = trim(text);
    lemma_trim_len(text);
    match char_index(t, '>') {
        Some(e) => {
            lemma_char_index(t, '>');
            lemma_trim_len(t.skip(e + 1));
        },
        None => match char_index(t, ' ') {
            Some(i) => {
                lemma_char_index(t, ' ');
                lemma_trim_len(t.skip(i + 1));
            },
            None => {},
        },
    }
}

} // verus!
