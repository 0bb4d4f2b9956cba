//! What a diagnostic says, and the source line it points at shown under a
//! caret.

use vstd::prelude::*;
use crate::error::{disruption_view, line_number, DisruptionV, HarmonyDisruption};
use crate::lexer::{lines_of, split_lines};
use crate::text::{
    chars_of, char_utf8_len, debug_dims, decimal, is_white_space, push_char, push_chars, push_debug_dims,
    push_decimal, push_str, trim_start, utf8_len, utf8_width,
};

verus! {

/// The message of a diagnostic.
pub open spec fn message_spec(e: DisruptionV) -> Seq<char>
    decreases e,
{
    match e {
        DisruptionV::GlyphErr { symbol, line, column } => "[Harmony Disruption: Glyph Failure] Invalid character/symbol detected outside dictionary: '"@
            + symbol + "' (Line "@ + decimal(line as nat) + ", Column "@ + decimal(column as nat) + ")"@,
        DisruptionV::SpaceErr { space_name, line } => "[Harmony Disruption: Space Failure] Operation on undeclared space '"@
            + space_name + "'. Verify '◯ □' initialization. (Line "@ + decimal(line as nat) + ")"@,
        DisruptionV::DimensionErr { space_a, shape_a, space_b, shape_b, line } =>
            "[Harmony Disruption: Dimension Failure] Shape mismatch between '"@ + space_a + "' ("@ + debug_dims(shape_a)
            + ") and '"@ + space_b + "' ("@ + debug_dims(shape_b) + "). (Line "@ + decimal(line as nat) + ")"@,
        DisruptionV::FlowErr => "[Harmony Disruption: Flow Failure] Missing final equilibrium output point (=) in computational universe."@,
        DisruptionV::LogicErr { expr, line } => "[Harmony Disruption: Logic Failure] Static constraint expression '"@
            + expr + "' failed validation. (Line "@ + decimal(line as nat) + ")"@,
        DisruptionV::LoweringErr { detail, line } => "[Harmony Disruption: Lowering Failure] "@ + detail + " (Line "@
            + decimal(line as nat) + ")"@,
        DisruptionV::IterateErr { detail, line } => "[Harmony Disruption: Iteration Failure] "@ + detail + " (Line "@
            + decimal(line as nat) + ")"@,
        DisruptionV::InFunction { function, defined, line, inner } => message_spec(*inner) + " (in `"@ + function
            + "`, defined on line "@ + decimal(defined as nat) + ")"@,
    }
}

/// `n` spaces.
pub open spec fn spaces(n: nat) -> Seq<char> {
    Seq::new(n, |i: int| ' ')
}

/// The line of a diagnostic, 0 when it has none.
pub open spec fn view_line(e: DisruptionV) -> usize {
    match e {
        DisruptionV::GlyphErr { line, .. } => line,
        DisruptionV::SpaceErr { line, .. } => line,
        DisruptionV::DimensionErr { line, .. } => line,
        DisruptionV::FlowErr => 0,
        DisruptionV::LogicErr { line, .. } => line,
        DisruptionV::LoweringErr { line, .. } => line,
        DisruptionV::IterateErr { line, .. } => line,
        DisruptionV::InFunction { line, .. } => line,
    }
}

/// The column a diagnostic points at on its line: a glyph's own, else the
/// first byte after the indentation.
pub open spec fn caret_column(e: DisruptionV, text: Seq<char>) -> int {
    match e {
        DisruptionV::GlyphErr { column, .. } => column as int,
        _ => utf8_width(text) - utf8_width(trim_start(text)) + 1,
    }
}

/// A diagnostic with the offending source line under a caret.
pub open spec fn render_spec(e: DisruptionV, source: Seq<char>) -> Seq<char> {
    let line = view_line(e);
    let ls = lines_of(source);
    if line == 0 || line - 1 >= ls.len() {
        message_spec(e)
    } else {
        let text = ls[line - 1];
        let gutter = decimal(line as nat);
        let pad = spaces(gutter.len());
        let column = caret_column(e, text);
        message_spec(e) + "\n"@ + pad + " |\n"@ + gutter + " | "@ + text + "\n"@ + pad + " | "@ + spaces(
            if column >= 1 {
                (column - 1) as nat
            } else {
                0
            },
        ) + "^"@
    }
}

fn push_spaces(s: &mut String, n: u128)
    ensures
        final(s)@ == old(s)@ + spaces(n as nat),
{
    let mut i: u128 = 0;
    while i < n
        invariant
            i <= n,
            s@ == old(s)@ + spaces(i as nat),
        decreases n - i,
    {
        push_char(s, ' ');
        i = i + 1;
        assert(s@ =~= old(s)@ + spaces(i as nat));
    }
}

/// How many bytes `s` takes in UTF-8.
fn byte_width(s: &[char]) -> (r: u128)
    ensures
        r == utf8_width(s@),
        r <= 4 * s.len(),
{
    let mut w: u128 = 0;
    let mut i: usize = 0;
    assert(s@.take(0) =~= Seq::<char>::empty());
    while i < s.len()
        invariant
            i <= s.len(),
            w == utf8_width(s@.take(i as int)),
            w <= 4 * i,
        decreases s.len() - i,
    {
        assert(s@.take(i + 1).drop_last() =~= s@.take(i as int));
        w = w + char_utf8_len(s[i]) as u128;
        i = i + 1;
    }
    assert(s@.take(s.len() as int) =~= s@);
    w
}

impl HarmonyDisruption {
    /// What the diagnostic says.
    pub fn message(&self) -> (r: String)
        ensures
            r@ == message_spec(disruption_view(*self)),
        decreases self,
    {
        let mut m = String::new();
        match self {
            HarmonyDisruption::GlyphErr { symbol, line, column } => {
                push_str(
                    &mut m,
                    "[Harmony Disruption: Glyph Failure] Invalid character/symbol detected outside dictionary: '",
                );
                push_str(&mut m, symbol.as_str());
                push_str(&mut m, "' (Line ");
                push_decimal(&mut m, *line as u64);
                push_str(&mut m, ", Column ");
                push_decimal(&mut m, *column as u64);
                push_str(&mut m, ")");
            },
            HarmonyDisruption::SpaceErr { space_name, line } => {
                push_str(&mut m, "[Harmony Disruption: Space Failure] Operation on undeclared space '");
                push_str(&mut m, space_name.as_str());
                push_str(&mut m, "'. Verify '◯ □' initialization. (Line ");
                push_decimal(&mut m, *line as u64);
                push_str(&mut m, ")");
            },
            HarmonyDisruption::DimensionErr { space_a, shape_a, space_b, shape_b, line } => {
                push_str(&mut m, "[Harmony Disruption: Dimension Failure] Shape mismatch between '");
                push_str(&mut m, space_a.as_str());
                push_str(&mut m, "' (");
                push_debug_dims(&mut m, shape_a.as_slice());
                push_str(&mut m, ") and '");
                push_str(&mut m, space_b.as_str());
                push_str(&mut m, "' (");
                push_debug_dims(&mut m, shape_b.as_slice());
                push_str(&mut m, "). (Line ");
                push_decimal(&mut m, *line as u64);
                push_str(&mut m, ")");
            },
            HarmonyDisruption::FlowErr => {
                push_str(
                    &mut m,
                    "[Harmony Disruption: Flow Failure] Missing final equilibrium output point (=) in computational universe.",
                );
            },
            HarmonyDisruption::LogicErr { expr, line } => {
                push_str(&mut m, "[Harmony Disruption: Logic Failure] Static constraint expression '");
                push_str(&mut m, expr.as_str());
                push_str(&mut m, "' failed validation. (Line ");
                push_decimal(&mut m, *line as u64);
                push_str(&mut m, ")");
            },
            HarmonyDisruption::LoweringErr { detail, line } => {
                push_str(&mut m, "[Harmony Disruption: Lowering Failure] ");
                push_str(&mut m, detail.as_str());
                push_str(&mut m, " (Line ");
                push_decimal(&mut m, *line as u64);
                push_str(&mut m, ")");
            },
            HarmonyDisruption::IterateErr { detail, line } => {
                push_str(&mut m, "[Harmony Disruption: Iteration Failure] ");
                push_str(&mut m, detail.as_str());
                push_str(&mut m, " (Line ");
                push_decimal(&mut m, *line as u64);
                push_str(&mut m, ")");
            },
            HarmonyDisruption::InFunction { function, defined, line, inner } => {
                m = inner.message();
                push_str(&mut m, " (in `");
                push_str(&mut m, function.as_str());
                push_str(&mut m, "`, defined on line ");
                push_decimal(&mut m, *defined as u64);
                push_str(&mut m, ")");
            },
        }
        m
    }

    /// The diagnostic with the offending source line under a caret.
    pub fn render(&self, source: &str) -> (r: String)
        ensures
            r@ == render_spec(disruption_view(*self), source@),
    {
        let line = match self.line() {
            Some(l) => l,
            None => return self.message(),
        };
        assert(line == view_line(disruption_view(*self)));
        let chars = chars_of(source);
        let lines = split_lines(chars.as_slice());
        assert(lines@.map_values(|l: Vec<char>| l@) == lines_of(source@));
        if line - 1 >= lines.len() {
            return self.message();
        }
        let text = lines[line - 1].as_slice();
        assert(lines_of(source@)[line - 1] == text@);
        let column: u128 = match self {
            HarmonyDisruption::GlyphErr { column, .. } => *column as u128,
            _ => {
                let mut a: usize = 0;
                assert(text@.skip(0) =~= text@);
                while a < text.len() && is_white_space(text[a])
                    invariant
                        a <= text.len(),
                        trim_start(text@) == trim_start(text@.skip(a as int)),
                    decreases text.len() - a,
                {
                    assert(text@.skip(a as int).drop_first() =~= text@.skip(a + 1));
                    a = a + 1;
                }
                assert(trim_start(text@.skip(a as int)) == text@.skip(a as int));
                proof {
                    lemma_width_split(text@, a as int);
                }
                let whole = byte_width(text);
                let rest = byte_width(vstd::slice::slice_subrange(text, a, text.len()));
                assert(text@.subrange(a as int, text.len() as int) =~= text@.skip(a as int));
                whole - rest + 1
            },
        };
        let mut m = self.message();
        push_str(&mut m, "\n");
        let mut gutter = String::new();
        push_decimal(&mut gutter, line as u64);
        let pad = gutter.as_str().unicode_len();
        push_spaces(&mut m, pad as u128);
        push_str(&mut m, " |\n");
        push_str(&mut m, gutter.as_str());
        push_str(&mut m, " | ");
        push_chars(&mut m, text);
        push_str(&mut m, "\n");
        push_spaces(&mut m, pad as u128);
        push_str(&mut m, " | ");
        let shift = if column >= 1 { column - 1 } else { 0 };
        push_spaces(&mut m, shift);
        push_str(&mut m, "^");
        m
    }
}

proof fn lemma_width_split(s: Seq<char>, a: int)
    requires
        0 <= a <= s.len(),
    ensures
        utf8_width(s) == utf8_width(s.take(a)) + utf8_width(s.skip(a)),
    decreases s.len() - a,
{
    if a < s.len() {
        lemma_width_split(s, a + 1);
        lemma_width_drop_first(s.skip(a));
        assert(s.skip(a).drop_first() =~= s.skip(a + 1));
        assert(s.take(a + 1).drop_last() =~= s.take(a));
    } else {
        assert(s.take(a) =~= s);
        assert(s.skip(a) =~= Seq::<char>::empty());
    }
}

proof fn lemma_width_drop_first(s: Seq<char>)
    requires
        s.len() > 0,
    ensures
        utf8_width(s) == utf8_len(s[0]) + utf8_width(s.drop_first()),
    decreases s.len(),
{
    if s.len() > 1 {
        lemma_width_drop_first(s.drop_last());
        assert(s.drop_last().drop_first() =~= s.drop_first().drop_last());
    } else {
        assert(s.drop_first() =~= Seq::<char>::empty());
        assert(s.drop_last() =~= Seq::<char>::empty());
    }
}

} // verus!
