//! The character level of a source: comments, ASCII aliases, lines, and
//! the glyphs and words a program may not use.

use vstd::prelude::*;
use crate::error::{DisruptionV, HarmonyDisruption};
use crate::text::{
    alphabetic, ascii_alnum, chars_of, char_utf8_len, is_alphabetic, is_ascii_alnum, is_white_space, push_char,
    push_chars, string_from, utf8_len, utf8_width, white_space,
};

verus! {

// ---------------------------------------------------------------- comments

/// Reading code.
pub open spec fn CODE() -> u8 {
    0
}

/// A source with its comments removed: `/* ... */` blocks keep only their
/// newlines, so line numbers still count; `//` runs to the end of its line.
/// `mode` is 0 in code, 1 inside a block comment, 2 inside a line comment.
pub open spec fn strip_comments(s: Seq<char>, mode: u8) -> Seq<char>
    decreases s.len(),
{
    if s.len() == 0 {
        Seq::empty()
    } else if mode == 1 {
        if s[0] == '*' && s.len() > 1 && s[1] == '/' {
            strip_comments(s.skip(2), 0)
        } else if s[0] == '\n' {
            seq!['\n'] + strip_comments(s.drop_first(), 1)
        } else {
            strip_comments(s.drop_first(), 1)
        }
    } else if mode == 2 {
        if s[0] == '\n' {
            seq!['\n'] + strip_comments(s.drop_first(), 0)
        } else {
            strip_comments(s.drop_first(), 2)
        }
    } else {
        if s[0] == '/' && s.len() > 1 && s[1] == '*' {
            strip_comments(s.skip(2), 1)
        } else if s[0] == '/' && s.len() > 1 && s[1] == '/' {
            strip_comments(s.skip(2), 2)
        } else {
            seq![s[0]] + strip_comments(s.drop_first(), 0)
        }
    }
}

/// Remove `/* */` and `//` comments, keeping the line structure.
pub fn remove_comments(input: &[char]) -> (r: Vec<char>)
    ensures
        r@ == strip_comments(input@, 0),
{
    let n = input.len();
    let mut out: Vec<char> = Vec::new();
    let mut mode: u8 = 0;
    let mut i: usize = 0;
    assert(input@.skip(0) =~= input@);
    while i < n
        invariant
            i <= n,
            n == input.len(),
            mode <= 2,
            out@ + strip_comments(input@.skip(i as int), mode) == strip_comments(input@, 0),
        decreases n - i,
    {
        let ghost rest = input@.skip(i as int);
        let ghost before = out@;
        let c = input[i];
        assert(rest.drop_first() =~= input@.skip(i + 1));
        if mode == 1 {
            if c == '*' && i + 1 < n && input[i + 1] == '/' {
                assert(rest.skip(2) =~= input@.skip(i + 2));
                mode = 0;
                i = i + 2;
            } else if c == '\n' {
                out.push(c);
                assert(before + (seq![c] + strip_comments(input@.skip(i + 1), 1)) =~= out@ + strip_comments(
                    input@.skip(i + 1),
                    1,
                ));
                i = i + 1;
            } else {
                i = i + 1;
            }
        } else if mode == 2 {
            if c == '\n' {
                out.push(c);
                assert(before + (seq![c] + strip_comments(input@.skip(i + 1), 0)) =~= out@ + strip_comments(
                    input@.skip(i + 1),
                    0,
                ));
                mode = 0;
            }
            i = i + 1;
        } else {
            if c == '/' && i + 1 < n && input[i + 1] == '*' {
                assert(rest.skip(2) =~= input@.skip(i + 2));
                mode = 1;
                i = i + 2;
            } else if c == '/' && i + 1 < n && input[i + 1] == '/' {
                assert(rest.skip(2) =~= input@.skip(i + 2));
                mode = 2;
                i = i + 2;
            } else {
                out.push(c);
                assert(before + (seq![c] + strip_comments(input@.skip(i + 1), 0)) =~= out@ + strip_comments(
                    input@.skip(i + 1),
                    0,
                ));
                i = i + 1;
            }
        }
    }
    assert(input@.skip(n as int) =~= Seq::<char>::empty());
    assert(out@ + Seq::<char>::empty() =~= out@);
    out
}

// ---------------------------------------------------------------- aliases

/// `s` with every occurrence of `pat`, scanning left to right and never
/// overlapping, replaced by `rep`: what `str::replace` does.
pub open spec fn replace_all(s: Seq<char>, pat: Seq<char>, rep: Seq<char>) -> Seq<char>
    recommends
        pat.len() > 0,
    decreases s.len(),
{
    if pat.len() == 0 || s.len() < pat.len() {
        s
    } else if s.take(pat.len() as int) == pat {
        rep + replace_all(s.skip(pat.len() as int), pat, rep)
    } else {
        seq![s[0]] + replace_all(s.drop_first(), pat, rep)
    }
}

/// Whether `pat` occurs in `s` at position `i`.
fn matches_at(s: &[char], i: usize, pat: &[char]) -> (r: bool)
    requires
        i <= s.len(),
    ensures
        r == (s@.len() - i >= pat@.len() && s@.skip(i as int).take(pat@.len() as int) == pat@),
{
    if s.len() - i < pat.len() {
        return false;
    }
    let mut k: usize = 0;
    while k < pat.len()
        invariant
            k <= pat.len(),
            i + pat.len() <= s.len(),
            forall|j: int| 0 <= j < k ==> s@[i + j] == pat@[j],
        decreases pat.len() - k,
    {
        if s[i + k] != pat[k] {
            assert(s@.skip(i as int).take(pat@.len() as int)[k as int] != pat@[k as int]);
            return false;
        }
        k = k + 1;
    }
    assert(s@.skip(i as int).take(pat@.len() as int) =~= pat@);
    true
}

/// Replace every occurrence of `pat` by `rep`, left to right.
pub fn replace_all_chars(s: &[char], pat: &[char], rep: &[char]) -> (r: Vec<char>)
    requires
        pat.len() > 0,
    ensures
        r@ == replace_all(s@, pat@, rep@),
{
    let n = s.len();
    let mut out: Vec<char> = Vec::new();
    let mut i: usize = 0;
    assert(s@.skip(0) =~= s@);
    while i < n
        invariant
            i <= n,
            n == s.len(),
            pat.len() > 0,
            out@ + replace_all(s@.skip(i as int), pat@, rep@) == replace_all(s@, pat@, rep@),
        decreases n - i,
    {
        let ghost rest = s@.skip(i as int);
        if matches_at(s, i, pat) {
            assert(rest.skip(pat@.len() as int) =~= s@.skip(i + pat.len()));
            let ghost before = out@;
            let mut k: usize = 0;
            while k < rep.len()
                invariant
                    k <= rep.len(),
                    out@ == before + rep@.take(k as int),
                decreases rep.len() - k,
            {
                out.push(rep[k]);
                k = k + 1;
                assert(out@ =~= before + rep@.take(k as int));
            }
            assert(rep@.take(rep.len() as int) =~= rep@);
            assert(before + (rep@ + replace_all(s@.skip(i + pat.len()), pat@, rep@)) =~= out@ + replace_all(
                s@.skip(i + pat.len()),
                pat@,
                rep@,
            ));
            i = i + pat.len();
        } else {
            let ghost before = out@;
            assert(rest.drop_first() =~= s@.skip(i + 1));
            out.push(s[i]);
            assert(before + (seq![s@[i as int]] + replace_all(s@.skip(i + 1), pat@, rep@)) =~= out@ + replace_all(
                s@.skip(i + 1),
                pat@,
                rep@,
            ));
            i = i + 1;
        }
    }
    assert(s@.skip(n as int) =~= Seq::<char>::empty());
    assert(out@ + Seq::<char>::empty() =~= out@);
    out
}

/// The ASCII spellings of the glyphs, replaced in this order: `<.>` before
/// `<>`, and both before `<<` and `>>`, so a scan is not read as a fold and
/// neither as two shifts.
pub open spec fn aliases() -> Seq<(Seq<char>, Seq<char>)> {
    seq![
        ("<.>"@, "◈"@),
        (">."@, "⌈"@),
        ("<."@, "⌊"@),
        ("<>"@, "◇"@),
        ("[]"@, "□"@),
        ("->"@, "→"@),
        ("=>"@, "⇒"@),
        (">>"@, "▷"@),
        ("<<"@, "▽"@),
        ("#"@, "⍳"@),
        ("%"@, "⌽"@),
        ("\\"@, "⍴"@),
        ("'"@, "⍉"@),
        ("^."@, "↑"@),
        ("_."@, "↓"@),
        ("@"@, "&"@),
    ]
}

/// A source with the first `n` aliases replaced, in order.
pub open spec fn normalized(s: Seq<char>, n: int) -> Seq<char>
    decreases n,
{
    if n <= 0 {
        s
    } else {
        let (pat, rep) = aliases()[n - 1];
        replace_all(normalized(s, n - 1), pat, rep)
    }
}

fn alias_table() -> (r: Vec<(Vec<char>, Vec<char>)>)
    ensures
        r.len() == aliases().len(),
        forall|k: int| 0 <= k < r.len() ==> (#[trigger] r@[k]).0@ == aliases()[k].0 && r@[k].1@ == aliases()[k].1 && r@[k].0@.len() > 0,
{
    let pairs: [(&str, &str); 16] = [
        ("<.>", "◈"),
        (">.", "⌈"),
        ("<.", "⌊"),
        ("<>", "◇"),
        ("[]", "□"),
        ("->", "→"),
        ("=>", "⇒"),
        (">>", "▷"),
        ("<<", "▽"),
        ("#", "⍳"),
        ("%", "⌽"),
        ("\\", "⍴"),
        ("'", "⍉"),
        ("^.", "↑"),
        ("_.", "↓"),
        ("@", "&"),
    ];
    proof {
        reveal_strlit("<.>");
        reveal_strlit(">.");
        reveal_strlit("<.");
        reveal_strlit("<>");
        reveal_strlit("[]");
        reveal_strlit("->");
        reveal_strlit("=>");
        reveal_strlit(">>");
        reveal_strlit("<<");
        reveal_strlit("#");
        reveal_strlit("%");
        reveal_strlit("\\");
        reveal_strlit("'");
        reveal_strlit("^.");
        reveal_strlit("_.");
        reveal_strlit("@");
    }
    let mut out: Vec<(Vec<char>, Vec<char>)> = Vec::new();
    let mut k: usize = 0;
    while k < 16
        invariant
            k <= 16,
            out.len() == k,
            forall|j: int| 0 <= j < 16 ==> (#[trigger] pairs@[j]).0@ == aliases()[j].0 && pairs@[j].1@ == aliases()[j].1,
            forall|j: int| 0 <= j < k ==> (#[trigger] out@[j]).0@ == aliases()[j].0 && out@[j].1@ == aliases()[j].1,
        decreases 16 - k,
    {
        let (p, r) = pairs[k];
        out.push((chars_of(p), chars_of(r)));
        k = k + 1;
    }
    out
}

/// Normalize ASCII symbol aliases to the glyphs of ρ.
pub fn normalize_ascii_aliases(input: &str) -> (r: String)
    ensures
        r@ == normalized(input@, aliases().len() as int),
{
    let table = alias_table();
    let mut text = chars_of(input);
    let mut k: usize = 0;
    while k < table.len()
        invariant
            k <= table.len(),
            table.len() == aliases().len(),
            forall|j: int| 0 <= j < table.len() ==> (#[trigger] table@[j]).0@ == aliases()[j].0 && table@[j].1@ == aliases()[j].1 && table@[j].0@.len() > 0,
            text@ == normalized(input@, k as int),
        decreases table.len() - k,
    {
        let pair = &table[k];
        text = replace_all_chars(text.as_slice(), pair.0.as_slice(), pair.1.as_slice());
        k = k + 1;
    }
    string_from(text.as_slice())
}

} // verus!

verus! {

// ---------------------------------------------------------------- lines

/// The position of the first newline, if any.
pub open spec fn first_newline(s: Seq<char>) -> Option<int>
    decreases s.len(),
{
    if s.len() == 0 {
        None
    } else if s[0] == '\n' {
        Some(0)
    } else {
        match first_newline(s.drop_first()) {
            Some(k) => Some(k + 1),
            None => None,
        }
    }
}

/// A line without the carriage return of a `\r\n` ending.
pub open spec fn without_cr(l: Seq<char>) -> Seq<char> {
    if l.len() > 0 && l.last() == '\r' {
        l.drop_last()
    } else {
        l
    }
}

/// The lines of a text, as `str::lines` gives them: split at each `\n`, a
/// `\r` before it dropped, and no empty line after a final newline.
pub open spec fn lines_of(s: Seq<char>) -> Seq<Seq<char>>
    decreases s.len(),
{
    if s.len() == 0 {
        Seq::empty()
    } else {
        match first_newline(s) {
            Some(k) => if 0 <= k < s.len() {
                seq![without_cr(s.take(k))] + lines_of(s.skip(k + 1))
            } else {
                seq![s]
            },
            None => seq![s],
        }
    }
}

proof fn lemma_first_newline_at(s: Seq<char>, k: int)
    requires
        0 <= k < s.len(),
        s[k] == '\n',
        forall|j: int| 0 <= j < k ==> s[j] != '\n',
    ensures
        first_newline(s) == Some(k),
    decreases k,
{
    if k > 0 {
        lemma_first_newline_at(s.drop_first(), k - 1);
    }
}

proof fn lemma_no_newline(s: Seq<char>)
    requires
        forall|j: int| 0 <= j < s.len() ==> s[j] != '\n',
    ensures
        first_newline(s) is None,
    decreases s.len(),
{
    if s.len() > 0 {
        lemma_no_newline(s.drop_first());
    }
}

/// The lines of a text, as `str::lines` gives them.
pub fn split_lines(s: &[char]) -> (r: Vec<Vec<char>>)
    ensures
        r@.map_values(|l: Vec<char>| l@) == lines_of(s@),
{
    let n = s.len();
    let mut out: Vec<Vec<char>> = Vec::new();
    let mut start: usize = 0;
    assert(s@.skip(0) =~= s@);
    while start < n
        invariant
            start <= n,
            n == s.len(),
            out@.map_values(|l: Vec<char>| l@) + lines_of(s@.skip(start as int)) == lines_of(s@),
        decreases n - start,
    {
        let ghost rest = s@.skip(start as int);
        let mut end = start;
        while end < n && s[end] != '\n'
            invariant
                start <= end <= n,
                n == s.len(),
                forall|j: int| start <= j < end ==> s@[j] != '\n',
            decreases n - end,
        {
            end = end + 1;
        }
        let mut line: Vec<char> = Vec::new();
        let mut k = start;
        while k < end
            invariant
                start <= k <= end,
                end <= n,
                n == s.len(),
                line@ == s@.subrange(start as int, k as int),
            decreases end - k,
        {
            line.push(s[k]);
            k = k + 1;
            assert(line@ =~= s@.subrange(start as int, k as int));
        }
        let ghost before = out@.map_values(|l: Vec<char>| l@);
        if end < n {
            proof {
                lemma_first_newline_at(rest, end - start);
                assert(rest.take(end - start) =~= line@);
                assert(rest.skip(end - start + 1) =~= s@.skip(end + 1));
            }
            if line.len() > 0 && line[line.len() - 1] == '\r' {
                line.pop();
            }
            out.push(line);
            proof {
                assert(out@.map_values(|l: Vec<char>| l@) =~= before.push(without_cr(rest.take(end - start))));
                assert(out@.map_values(|l: Vec<char>| l@) + lines_of(s@.skip(end + 1)) =~= before + lines_of(rest));
            }
            start = end + 1;
        } else {
            proof {
                assert forall|j: int| 0 <= j < rest.len() implies rest[j] != '\n' by {
                    assert(rest[j] == s@[start + j]);
                }
                lemma_no_newline(rest);
                assert(rest =~= line@);
            }
            out.push(line);
            proof {
                assert(out@.map_values(|l: Vec<char>| l@) =~= before.push(rest));
                assert(s@.skip(n as int) =~= Seq::<char>::empty());
                assert(out@.map_values(|l: Vec<char>| l@) + lines_of(s@.skip(n as int)) =~= before + lines_of(rest));
            }
            start = n;
        }
    }
    proof {
        assert(s@.skip(n as int) =~= Seq::<char>::empty());
        assert(out@.map_values(|l: Vec<char>| l@) + Seq::<Seq<char>>::empty() =~= out@.map_values(|l: Vec<char>| l@));
    }
    out
}

} // verus!

verus! {

// ---------------------------------------------------------------- glyphs

/// The glyphs and punctuation a program may use besides ASCII letters and
/// digits.
pub open spec fn allowed_glyphs() -> Seq<char> {
    seq![
        '◯', '□', '▷', '▽', '△', '◇', '◈', '⍳', '⌽', '⍴', '⍉', '↑', '↓', '+', '-', '×', '*', '/', '^', '⌈', '⌊', '|',
        '→', '⇒', '<', '>', '=', ':', '{', '}', '$', '&', '!', '(', ')', '[', ']', ';', ',', '.', ' ', '\t', '\r',
        '\n', '_', '\u{1D70F}', '\u{3C4}',
    ]
}

pub open spec fn allowed_char(c: char) -> bool {
    ascii_alnum(c) || allowed_glyphs().contains(c)
}

fn is_allowed_char(c: char) -> (r: bool)
    ensures
        r == allowed_char(c),
{
    if is_ascii_alnum(c) {
        return true;
    }
    let glyphs = [
        '◯', '□', '▷', '▽', '△', '◇', '◈', '⍳', '⌽', '⍴', '⍉', '↑', '↓', '+', '-', '×', '*', '/', '^', '⌈', '⌊', '|',
        '→', '⇒', '<', '>', '=', ':', '{', '}', '$', '&', '!', '(', ')', '[', ']', ';', ',', '.', ' ', '\t', '\r',
        '\n', '_', '\u{1D70F}', '\u{3C4}',
    ];
    assert(glyphs@ =~= allowed_glyphs());
    let mut i: usize = 0;
    while i < glyphs.len()
        invariant
            i <= glyphs.len(),
            glyphs@ == allowed_glyphs(),
            forall|j: int| 0 <= j < i ==> glyphs@[j] != c,
        decreases glyphs.len() - i,
    {
        if glyphs[i] == c {
            return true;
        }
        i = i + 1;
    }
    false
}

/// A count that saturates at the largest word.
pub open spec fn saturated(n: nat) -> usize {
    if n <= usize::MAX {
        n as usize
    } else {
        usize::MAX
    }
}

/// The first character of a line, from position `i`, that is not allowed.
pub open spec fn first_bad_from(line: Seq<char>, i: int) -> Option<int>
    decreases line.len() - i,
{
    if i < 0 || i >= line.len() {
        None
    } else if !allowed_char(line[i]) {
        Some(i)
    } else {
        first_bad_from(line, i + 1)
    }
}

/// The first character, line by line from line `li`, outside the dictionary:
/// its line counted from 1 and its column in bytes from 1.
pub open spec fn glyph_fault(lines: Seq<Seq<char>>, li: int) -> Option<DisruptionV>
    decreases lines.len() - li,
{
    if li < 0 || li >= lines.len() {
        None
    } else {
        match first_bad_from(lines[li], 0) {
            Some(ci) => Some(
                DisruptionV::GlyphErr {
                    symbol: seq![lines[li][ci]],
                    line: saturated((li + 1) as nat),
                    column: saturated(utf8_width(lines[li].take(ci)) + 1),
                },
            ),
            None => glyph_fault(lines, li + 1),
        }
    }
}

/// The first glyph fault of a source, comments removed.
pub open spec fn symbols_fault(s: Seq<char>) -> Option<DisruptionV> {
    glyph_fault(lines_of(strip_comments(s, 0)), 0)
}

/// Where in a line a character starts, in bytes, saturating.
fn byte_column(line: &[char], ci: usize) -> (r: usize)
    requires
        ci <= line.len(),
    ensures
        r == saturated(utf8_width(line@.take(ci as int)) + 1),
{
    let mut w: usize = 1;
    let mut k: usize = 0;
    assert(line@.take(0) =~= Seq::<char>::empty());
    while k < ci
        invariant
            k <= ci,
            ci <= line.len(),
            w == saturated(utf8_width(line@.take(k as int)) + 1),
        decreases ci - k,
    {
        let add = char_utf8_len(line[k]);
        proof {
            assert(line@.take(k + 1).drop_last() =~= line@.take(k as int));
            assert(line@.take(k + 1).last() == line@[k as int]);
        }
        if w > usize::MAX - add {
            w = usize::MAX;
        } else {
            w = w + add;
        }
        k = k + 1;
    }
    w
}

/// Validate the character set of a source: outside comments, only ASCII
/// letters and digits and the glyphs of the dictionary.
pub fn validate_symbols(input: &str) -> (r: Result<(), HarmonyDisruption>)
    ensures
        match r {
            Ok(()) => symbols_fault(input@) is None,
            Err(e) => symbols_fault(input@) == Some(e@),
        },
{
    let chars = chars_of(input);
    let code = remove_comments(chars.as_slice());
    let lines = split_lines(code.as_slice());
    let ghost views = lines@.map_values(|l: Vec<char>| l@);
    let mut li: usize = 0;
    while li < lines.len()
        invariant
            li <= lines.len(),
            views == lines@.map_values(|l: Vec<char>| l@),
            views == lines_of(strip_comments(input@, 0)),
            views.len() == lines.len(),
            glyph_fault(views, 0) == glyph_fault(views, li as int),
        decreases lines.len() - li,
    {
        let line = &lines[li];
        let mut ci: usize = 0;
        while ci < line.len()
            invariant
                li < lines.len(),
                views.len() == lines.len(),
                views == lines_of(strip_comments(input@, 0)),
                glyph_fault(views, 0) == glyph_fault(views, li as int),
                ci <= line.len(),
                line@ == views[li as int],
                first_bad_from(line@, 0) == first_bad_from(line@, ci as int),
            decreases line.len() - ci,
        {
            let c = line[ci];
            if !is_allowed_char(c) {
                let mut symbol = String::new();
                push_char(&mut symbol, c);
                let column = byte_column(line.as_slice(), ci);
                proof {
                    assert(symbol@ =~= seq![views[li as int][ci as int]]);
                    assert(first_bad_from(line@, ci as int) == Some(ci as int));
                    assert(first_bad_from(views[li as int], 0) == Some(ci as int));
                    assert(glyph_fault(views, li as int) == Some(DisruptionV::GlyphErr {
                        symbol: symbol@,
                        line: (li + 1) as usize,
                        column,
                    }));
                }
                return Err(HarmonyDisruption::GlyphErr { symbol, line: li + 1, column });
            }
            ci = ci + 1;
        }
        li = li + 1;
    }
    Ok(())
}

// ---------------------------------------------------------------- forbidden words

/// Control flow words the language refuses: there are no loops or branches.
pub open spec fn forbidden_words() -> Seq<Seq<char>> {
    seq![
        "for"@,
        "while"@,
        "if"@,
        "else"@,
        "function"@,
        "fn"@,
        "var"@,
        "let"@,
        "const"@,
        "class"@,
        "return"@,
    ]
}

/// The length of the run of white space at the front of `s`.
pub open spec fn leading_space(s: Seq<char>) -> nat
    decreases s.len(),
{
    if s.len() > 0 && white_space(s[0]) {
        1 + leading_space(s.drop_first())
    } else {
        0
    }
}

/// The length of the run of non-white-space at the front of `s`.
pub open spec fn leading_word_len(s: Seq<char>) -> nat
    decreases s.len(),
{
    if s.len() > 0 && !white_space(s[0]) {
        1 + leading_word_len(s.drop_first())
    } else {
        0
    }
}

/// The words of a line: maximal runs of characters that are not white
/// space, as `str::split_whitespace` gives them.
pub open spec fn words_of(s: Seq<char>) -> Seq<Seq<char>>
    decreases s.len(),
{
    let t = s.skip(leading_space(s) as int);
    if leading_space(s) > s.len() || t.len() == 0 {
        Seq::empty()
    } else {
        let w = leading_word_len(t);
        if w == 0 || w > t.len() {
            Seq::empty()
        } else {
            seq![t.take(w as int)] + words_of(t.skip(w as int))
        }
    }
}

/// Non-alphabetic characters dropped from the front.
pub open spec fn trim_front(w: Seq<char>) -> Seq<char>
    decreases w.len(),
{
    if w.len() > 0 && !alphabetic(w[0]) {
        trim_front(w.drop_first())
    } else {
        w
    }
}

/// Non-alphabetic characters dropped from the back.
pub open spec fn trim_back(w: Seq<char>) -> Seq<char>
    decreases w.len(),
{
    if w.len() > 0 && !alphabetic(w.last()) {
        trim_back(w.drop_last())
    } else {
        w
    }
}

/// A word without the non-alphabetic characters at either end.
pub open spec fn trim_non_alpha(w: Seq<char>) -> Seq<char> {
    trim_back(trim_front(w))
}

/// The first position at which `w` occurs in `s`, from position `i`.
pub open spec fn find_from(s: Seq<char>, w: Seq<char>, i: int) -> Option<int>
    decreases s.len() + 1 - i,
{
    if i < 0 || i + w.len() > s.len() {
        None
    } else if s.subrange(i, i + w.len()) == w {
        Some(i)
    } else {
        find_from(s, w, i + 1)
    }
}

pub proof fn lemma_find_from(s: Seq<char>, w: Seq<char>, i: int)
    ensures
        find_from(s, w, i) matches Some(k) ==> i <= k && k + w.len() <= s.len() && s.subrange(k, k + w.len()) == w,
    decreases s.len() + 1 - i,
{
    if i >= 0 && i + w.len() <= s.len() && s.subrange(i, i + w.len()) != w {
        lemma_find_from(s, w, i + 1);
    }
}

/// The first forbidden word among `words`, from word `wi`, trimmed.
pub open spec fn forbidden_in(words: Seq<Seq<char>>, wi: int) -> Option<Seq<char>>
    decreases words.len() - wi,
{
    if wi < 0 || wi >= words.len() {
        None
    } else if forbidden_words().contains(trim_non_alpha(words[wi])) {
        Some(trim_non_alpha(words[wi]))
    } else {
        forbidden_in(words, wi + 1)
    }
}

/// The first forbidden word, line by line from line `li`: the word, its
/// line from 1, and the byte column from 1 at which it first occurs in the
/// line.
pub open spec fn keyword_fault(lines: Seq<Seq<char>>, li: int) -> Option<DisruptionV>
    decreases lines.len() - li,
{
    if li < 0 || li >= lines.len() {
        None
    } else {
        match forbidden_in(words_of(lines[li]), 0) {
            Some(w) => Some(
                DisruptionV::GlyphErr {
                    symbol: w,
                    line: saturated((li + 1) as nat),
                    column: match find_from(lines[li], w, 0) {
                        Some(i) => saturated(utf8_width(lines[li].take(i)) + 1),
                        None => 1,
                    },
                },
            ),
            None => keyword_fault(lines, li + 1),
        }
    }
}

/// The first forbidden word of a source, comments removed.
pub open spec fn keywords_fault(s: Seq<char>) -> Option<DisruptionV> {
    keyword_fault(lines_of(strip_comments(s, 0)), 0)
}

proof fn lemma_space_run(s: Seq<char>, k: int)
    requires
        0 <= k <= s.len(),
        forall|j: int| 0 <= j < k ==> white_space(s[j]),
        k < s.len() ==> !white_space(s[k]),
    ensures
        leading_space(s) == k,
    decreases k,
{
    if k > 0 {
        lemma_space_run(s.drop_first(), k - 1);
    }
}

proof fn lemma_word_run(s: Seq<char>, k: int)
    requires
        0 <= k <= s.len(),
        forall|j: int| 0 <= j < k ==> !white_space(s[j]),
        k < s.len() ==> white_space(s[k]),
    ensures
        leading_word_len(s) == k,
    decreases k,
{
    if k > 0 {
        lemma_word_run(s.drop_first(), k - 1);
    }
}

/// The words of a line, as `str::split_whitespace` gives them.
pub fn split_words(s: &[char]) -> (r: Vec<Vec<char>>)
    ensures
        r@.map_values(|w: Vec<char>| w@) == words_of(s@),
{
    let n = s.len();
    let mut out: Vec<Vec<char>> = Vec::new();
    let mut i: usize = 0;
    assert(s@.skip(0) =~= s@);
    while i < n
        invariant
            i <= n,
            n == s.len(),
            out@.map_values(|w: Vec<char>| w@) + words_of(s@.skip(i as int)) == words_of(s@),
        decreases n - i,
    {
        let ghost rest = s@.skip(i as int);
        let mut j = i;
        while j < n && is_white_space(s[j])
            invariant
                i <= j <= n,
                n == s.len(),
                forall|k: int| i <= k < j ==> white_space(s@[k]),
            decreases n - j,
        {
            j = j + 1;
        }
        proof {
            lemma_space_run(rest, j - i);
        }
        if j == n {
            proof {
                assert(rest.skip(j - i) =~= Seq::<char>::empty());
                assert(words_of(rest) =~= Seq::<Seq<char>>::empty());
                assert(s@.skip(n as int) =~= Seq::<char>::empty());
                assert(words_of(s@.skip(n as int)) =~= Seq::<Seq<char>>::empty());
            }
            i = n;
        } else {
            let mut k = j;
            let mut word: Vec<char> = Vec::new();
            while k < n && !is_white_space(s[k])
                invariant
                    j <= k <= n,
                    n == s.len(),
                    forall|m: int| j <= m < k ==> !white_space(s@[m]),
                    word@ == s@.subrange(j as int, k as int),
                decreases n - k,
            {
                word.push(s[k]);
                k = k + 1;
                assert(word@ =~= s@.subrange(j as int, k as int));
            }
            let ghost t = rest.skip(j - i);
            proof {
                assert(t =~= s@.skip(j as int));
                lemma_word_run(t, k - j);
                assert(t.take(k - j) =~= word@);
                assert(t.skip(k - j) =~= s@.skip(k as int));
            }
            let ghost before = out@.map_values(|w: Vec<char>| w@);
            out.push(word);
            proof {
                assert(out@.map_values(|w: Vec<char>| w@) =~= before.push(t.take(k - j)));
                assert(out@.map_values(|w: Vec<char>| w@) + words_of(s@.skip(k as int)) =~= before + words_of(rest));
            }
            i = k;
        }
    }
    proof {
        assert(s@.skip(n as int) =~= Seq::<char>::empty());
        assert(out@.map_values(|w: Vec<char>| w@) + Seq::<Seq<char>>::empty() =~= out@.map_values(|w: Vec<char>| w@));
    }
    out
}

/// A word without the non-alphabetic characters at either end.
pub fn trim_non_alphabetic(w: &[char]) -> (r: Vec<char>)
    ensures
        r@ == trim_non_alpha(w@),
{
    let mut start: usize = 0;
    assert(w@.skip(0) =~= w@);
    while start < w.len() && !is_alphabetic(w[start])
        invariant
            start <= w.len(),
            trim_front(w@) == trim_front(w@.skip(start as int)),
        decreases w.len() - start,
    {
        assert(w@.skip(start as int).drop_first() =~= w@.skip(start + 1));
        start = start + 1;
    }
    let mut end: usize = w.len();
    let ghost front = w@.skip(start as int);
    proof {
        assert(w@.skip(start as int) =~= w@.subrange(start as int, w.len() as int));
    }
    while end > start && !is_alphabetic(w[end - 1])
        invariant
            start <= end <= w.len(),
            front == w@.subrange(start as int, w.len() as int),
            trim_back(front) == trim_back(w@.subrange(start as int, end as int)),
        decreases end,
    {
        assert(w@.subrange(start as int, end as int).drop_last() =~= w@.subrange(start as int, end - 1));
        end = end - 1;
    }
    let mut out: Vec<char> = Vec::new();
    let mut k = start;
    while k < end
        invariant
            start <= k <= end,
            end <= w.len(),
            out@ == w@.subrange(start as int, k as int),
        decreases end - k,
    {
        out.push(w[k]);
        k = k + 1;
        assert(out@ =~= w@.subrange(start as int, k as int));
    }
    proof {
        if start == w.len() {
            assert(w@.skip(start as int) =~= Seq::<char>::empty());
        }
        assert(trim_front(w@) == front);
    }
    out
}

/// Where `w` first occurs in `s`, if it does.
pub fn find_chars(s: &[char], w: &[char]) -> (r: Option<usize>)
    ensures
        r matches Some(i) ==> i + w.len() <= s.len(),
        match r {
            Some(i) => find_from(s@, w@, 0) == Some(i as int),
            None => find_from(s@, w@, 0) is None,
        },
{
    if w.len() == 0 {
        assert(s@.subrange(0, 0) =~= w@);
        return Some(0);
    }
    let mut i: usize = 0;
    while i <= s.len() && w.len() <= s.len() - i
        invariant
            w.len() > 0,
            find_from(s@, w@, 0) == find_from(s@, w@, i as int),
        decreases s.len() + 1 - i,
    {
        if matches_at(s, i, w) {
            assert(s@.subrange(i as int, i + w@.len()) =~= s@.skip(i as int).take(w@.len() as int));
            return Some(i);
        }
        assert(s@.subrange(i as int, i + w@.len()) =~= s@.skip(i as int).take(w@.len() as int));
        i = i + 1;
    }
    None
}

/// Check a source for the control-flow words the language forbids.
pub fn check_forbidden_keywords(input: &str) -> (r: Result<(), HarmonyDisruption>)
    ensures
        match r {
            Ok(()) => keywords_fault(input@) is None,
            Err(e) => keywords_fault(input@) == Some(e@),
        },
{
    let forbidden = [
        "for",
        "while",
        "if",
        "else",
        "function",
        "fn",
        "var",
        "let",
        "const",
        "class",
        "return",
    ];
    let mut table: Vec<Vec<char>> = Vec::new();
    let mut f: usize = 0;
    while f < 11
        invariant
            f <= 11,
            table.len() == f,
            forall|j: int| 0 <= j < f ==> (#[trigger] table@[j])@ == forbidden@[j]@,
        decreases 11 - f,
    {
        table.push(chars_of(forbidden[f]));
        f = f + 1;
    }
    proof {
        assert(table@.map_values(|w: Vec<char>| w@) =~= forbidden_words());
    }
    let chars = chars_of(input);
    let code = remove_comments(chars.as_slice());
    let lines = split_lines(code.as_slice());
    let ghost views = lines@.map_values(|l: Vec<char>| l@);
    let mut li: usize = 0;
    while li < lines.len()
        invariant
            li <= lines.len(),
            views == lines@.map_values(|l: Vec<char>| l@),
            views == lines_of(strip_comments(input@, 0)),
            views.len() == lines.len(),
            table.len() == 11,
            table@.map_values(|w: Vec<char>| w@) == forbidden_words(),
            keyword_fault(views, 0) == keyword_fault(views, li as int),
        decreases lines.len() - li,
    {
        let line = &lines[li];
        let words = split_words(line.as_slice());
        let ghost wviews = words@.map_values(|w: Vec<char>| w@);
        let mut wi: usize = 0;
        while wi < words.len()
            invariant
                li < lines.len(),
                views.len() == lines.len(),
                views == lines_of(strip_comments(input@, 0)),
                keyword_fault(views, 0) == keyword_fault(views, li as int),
                wi <= words.len(),
                line@ == views[li as int],
                wviews == words@.map_values(|w: Vec<char>| w@),
                wviews == words_of(line@),
                table.len() == 11,
                table@.map_values(|w: Vec<char>| w@) == forbidden_words(),
                forbidden_in(wviews, 0) == forbidden_in(wviews, wi as int),
            decreases words.len() - wi,
        {
            let clean = trim_non_alphabetic(words[wi].as_slice());
            let mut t: usize = 0;
            let mut hit = false;
            while t < 11
                invariant
                    t <= 11,
                    table.len() == 11,
                    table@.map_values(|w: Vec<char>| w@) == forbidden_words(),
                    hit == exists|j: int| 0 <= j < t && forbidden_words()[j] == clean@,
                decreases 11 - t,
            {
                if crate::text::seq_eq(table[t].as_slice(), clean.as_slice()) {
                    proof {
                        assert(forbidden_words()[t as int] == table@[t as int]@);
                    }
                    hit = true;
                }
                proof {
                    assert(forbidden_words()[t as int] == table@[t as int]@);
                }
                t = t + 1;
            }
            if hit {
                let column = match find_chars(line.as_slice(), clean.as_slice()) {
                    Some(i) => byte_column(line.as_slice(), i),
                    None => 1,
                };
                let symbol = string_from(clean.as_slice());
                return Err(HarmonyDisruption::GlyphErr { symbol, line: li + 1, column });
            }
            wi = wi + 1;
        }
        li = li + 1;
    }
    Ok(())
}

} // verus!
