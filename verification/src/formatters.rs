//! Tolerant streaming pretty-printers for JSON and XML text embedded in
//! larger log-style inputs.
use vstd::prelude::*;

pub mod json;
pub mod xml;

verus! {

/// Newline followed by two spaces per indent level, capped at the
/// deepest prepared level.
pub open spec fn indent_seq(depth: int) -> Seq<char> {
    let d = if depth > 11 {
        11
    } else if depth < 0 {
        0
    } else {
        depth
    };
    Seq::new((1 + 2 * d) as nat, |i: int| if i == 0 { '\n' } else { ' ' })
}

/// Builds the indent text for a depth.
pub fn indent_string(depth: usize) -> (r: String)
    ensures
        r@ == indent_seq(depth as int),
{
    let d: usize = if depth > 11 { 11 } else { depth };
    let mut out = String::new();
    out.append("\n");
    proof {
        reveal_strlit("\n");
        reveal_strlit("  ");
        assert("\n"@ =~= seq!['\n']);
        assert("  "@ =~= seq![' ', ' ']);
    }
    let mut j: usize = 0;
    while j < d
        invariant
            j <= d,
            d <= 11,
            out@.len() == 1 + 2 * j,
            out@[0] == '\n',
            forall|m: int| 1 <= m < out@.len() ==> out@[m] == ' ',
            "  "@ == seq![' ', ' '],
        decreases d - j,
    {
        out.append("  ");
        j = j + 1;
    }
    proof {
        assert(out@ =~= indent_seq(depth as int));
    }
    out
}

} // verus!
