//! One-pass pretty-printer for a JSON region embedded in arbitrary text.
//!
//! Text before the first unescaped `{` or `[` is copied through; from
//! there, whitespace outside string literals is dropped and newline plus
//! indent is emitted after openers and item separators and before
//! closers, until the depth first returns to zero; the rest of the input
//! is copied through unchanged. The whole transformation is specified by
//! the character machine `pj_step` / `pj_emit` below.
use vstd::prelude::*;
use vstd::string::StrSliceExecFns;
use crate::formatters::{indent_seq, indent_string};

verus! {

/// Classification of one character, given the one before it.
#[derive(PartialEq, Eq, Structural, Clone, Copy, Debug)]
pub enum JsonSymbol {
    ObjectOrArrayStart,
    ObjectOrArrayEnd,
    Whitespace,
    StringBoundary,
    KeyValueSeparator,
    ItemSeparator,
    EscapedCharacter,
    NotAJsonSymbol,
}

/// What `detect_json_symbol` returns.
pub open spec fn spec_json_symbol(last: Option<char>, c: char) -> JsonSymbol {
    if last == Some('\\') {
        JsonSymbol::EscapedCharacter
    } else if c == '{' || c == '[' {
        JsonSymbol::ObjectOrArrayStart
    } else if c == '}' || c == ']' {
        JsonSymbol::ObjectOrArrayEnd
    } else if c == '"' {
        JsonSymbol::StringBoundary
    } else if c == ':' {
        JsonSymbol::KeyValueSeparator
    } else if c == ',' {
        JsonSymbol::ItemSeparator
    } else if c == ' ' || c == '\n' || c == '\t' {
        JsonSymbol::Whitespace
    } else {
        JsonSymbol::NotAJsonSymbol
    }
}

/// Classifies one character, given the one before it.
pub fn detect_json_symbol(last: Option<char>, c: char) -> (r: JsonSymbol)
    ensures
        r == spec_json_symbol(last, c),
{
    match last {
        Some('\\') => JsonSymbol::EscapedCharacter,
        _ => {
            if c == '{' || c == '[' {
                JsonSymbol::ObjectOrArrayStart
            } else if c == '}' || c == ']' {
                JsonSymbol::ObjectOrArrayEnd
            } else if c == '"' {
                JsonSymbol::StringBoundary
            } else if c == ':' {
                JsonSymbol::KeyValueSeparator
            } else if c == ',' {
                JsonSymbol::ItemSeparator
            } else if c == ' ' || c == '\n' || c == '\t' {
                JsonSymbol::Whitespace
            } else {
                JsonSymbol::NotAJsonSymbol
            }
        },
    }
}

/// State of the printer between characters.
pub struct PjState {
    pub started: bool,
    pub finished: bool,
    pub in_str: bool,
    pub depth: int,
    pub prev: Option<char>,
}

/// State before any character.
pub open spec fn pj_init() -> PjState {
    PjState { started: false, finished: false, in_str: false, depth: 0, prev: None }
}

/// Next state after one character.
pub open spec fn pj_step(st: PjState, c: char) -> PjState {
    let sym = spec_json_symbol(st.prev, c);
    if st.finished || (!st.started && sym != JsonSymbol::ObjectOrArrayStart) {
        PjState { prev: Some(c), ..st }
    } else if sym == JsonSymbol::Whitespace {
        PjState { started: true, prev: Some(c), ..st }
    } else {
        let in_str = if sym == JsonSymbol::StringBoundary {
            !st.in_str
        } else {
            st.in_str
        };
        if in_str {
            PjState { started: true, in_str, prev: Some(c), ..st }
        } else {
            let depth = if sym == JsonSymbol::ObjectOrArrayStart {
                st.depth + 1
            } else if sym == JsonSymbol::ObjectOrArrayEnd && st.depth > 0 {
                st.depth - 1
            } else {
                st.depth
            };
            let finished = sym == JsonSymbol::ObjectOrArrayEnd && depth == 0;
            PjState { started: true, finished, in_str, depth, prev: Some(c) }
        }
    }
}

/// Output for one character: before the region and after it characters
/// pass through; inside it, whitespace outside strings is dropped, and
/// indent text is placed around the structural symbols.
pub open spec fn pj_emit(st: PjState, c: char) -> Seq<char> {
    let sym = spec_json_symbol(st.prev, c);
    if st.finished || (!st.started && sym != JsonSymbol::ObjectOrArrayStart) {
        seq![c]
    } else if sym == JsonSymbol::Whitespace {
        if st.in_str {
            seq![c]
        } else {
            Seq::empty()
        }
    } else {
        let in_str = if sym == JsonSymbol::StringBoundary {
            !st.in_str
        } else {
            st.in_str
        };
        if in_str {
            seq![c]
        } else {
            let depth = if sym == JsonSymbol::ObjectOrArrayStart {
                st.depth + 1
            } else if sym == JsonSymbol::ObjectOrArrayEnd && st.depth > 0 {
                st.depth - 1
            } else {
                st.depth
            };
            if sym == JsonSymbol::ObjectOrArrayEnd {
                indent_seq(depth) + seq![c]
            } else if sym == JsonSymbol::ObjectOrArrayStart
                || sym == JsonSymbol::ItemSeparator {
                seq![c] + indent_seq(depth)
            } else if sym == JsonSymbol::KeyValueSeparator {
                seq![c] + seq![' ']
            } else {
                seq![c]
            }
        }
    }
}

/// State after the first `i` characters of `s`.
pub open spec fn pj_state_at(s: Seq<char>, i: int) -> PjState
    decreases i,
{
    if i <= 0 {
        pj_init()
    } else {
        pj_step(pj_state_at(s, i - 1), s[i - 1])
    }
}

/// Output for the first `i` characters of `s`.
pub open spec fn pj_out(s: Seq<char>, i: int) -> Seq<char>
    decreases i,
{
    if i <= 0 {
        Seq::empty()
    } else {
        pj_out(s, i - 1) + pj_emit(pj_state_at(s, i - 1), s[i - 1])
    }
}

/// The whole pretty-printed text.
pub open spec fn pretty_json_text(s: Seq<char>) -> Seq<char> {
    pj_out(s, s.len() as int)
}

/// Before the printer has seen an opener, every character passes
/// through unchanged, and the region is neither started nor finished.
pub proof fn lemma_pretty_json_passthrough(s: Seq<char>, i: int)
    requires
        0 <= i <= s.len(),
        !pj_state_at(s, i).started,
    ensures
        !pj_state_at(s, i).finished,
        pj_out(s, i) =~= s.subrange(0, i),
    decreases i,
{
    if i > 0 {
        let st = pj_state_at(s, i - 1);
        let sym = spec_json_symbol(st.prev, s[i - 1]);
        assert(pj_state_at(s, i) == pj_step(st, s[i - 1]));
        assert(!st.started);
        lemma_pretty_json_passthrough(s, i - 1);
        assert(sym != JsonSymbol::ObjectOrArrayStart);
        assert(pj_emit(st, s[i - 1]) == seq![s[i - 1]]);
    }
}

/// The output only grows as more characters are processed.
proof fn lemma_pj_out_extends(s: Seq<char>, i: int, j: int)
    requires
        0 <= i <= j <= s.len(),
    ensures
        pj_out(s, j).len() >= pj_out(s, i).len(),
        pj_out(s, j).subrange(0, pj_out(s, i).len() as int) =~= pj_out(s, i),
    decreases j - i,
{
    if i < j {
        lemma_pj_out_extends(s, i, j - 1);
        assert(pj_out(s, j) == pj_out(s, j - 1) + pj_emit(pj_state_at(s, j - 1), s[j - 1]));
    }
}

/// Law: the text before the first opening bracket of the JSON region is
/// byte-identical in the output. `k` is any point the printer reaches
/// without having started the region.
pub proof fn lemma_pretty_json_preserves_prefix(s: Seq<char>, k: int)
    requires
        0 <= k <= s.len(),
        !pj_state_at(s, k).started,
    ensures
        pretty_json_text(s).len() >= k,
        pretty_json_text(s).subrange(0, k) =~= s.subrange(0, k),
{
    lemma_pretty_json_passthrough(s, k);
    lemma_pj_out_extends(s, k, s.len() as int);
    assert(pretty_json_text(s).subrange(0, k)
        =~= pretty_json_text(s).subrange(0, pj_out(s, k).len() as int));
}

/// Law: an input with no JSON region comes back unchanged.
pub proof fn lemma_pretty_json_identity(s: Seq<char>)
    requires
        !pj_state_at(s, s.len() as int).started,
    ensures
        pretty_json_text(s) =~= s,
{
    lemma_pretty_json_passthrough(s, s.len() as int);
}

/// Law: once the region has closed, the rest of the input is copied
/// through unchanged. `k` is any point where the printer has finished.
pub proof fn lemma_pretty_json_preserves_suffix(s: Seq<char>, k: int)
    requires
        0 <= k <= s.len(),
        pj_state_at(s, k).finished,
    ensures
        pretty_json_text(s) =~= pj_out(s, k) + s.subrange(k, s.len() as int),
    decreases s.len() - k,
{
    if k < s.len() {
        let st = pj_state_at(s, k);
        assert(pj_state_at(s, k + 1).finished);
        assert(pj_emit(st, s[k]) == seq![s[k]]);
        lemma_pretty_json_preserves_suffix(s, k + 1);
        assert(pj_out(s, k + 1) == pj_out(s, k) + seq![s[k]]);
        assert(pj_out(s, k) + seq![s[k]] + s.subrange(k + 1, s.len() as int)
            =~= pj_out(s, k) + s.subrange(k, s.len() as int));
    } else {
        assert(s.subrange(k, s.len() as int) =~= Seq::<char>::empty());
        assert(pretty_json_text(s) =~= pj_out(s, k) + s.subrange(k, s.len() as int));
    }
}

/// Reformats the first fully-bracketed JSON region of `source` with
/// two-space indentation and a space after each key separator,
/// preserving all text outside the region.
#[verifier::loop_isolation(false)]
pub fn pretty_json(source: String) -> (r: String)
    ensures
        r@ == pretty_json_text(source@),
{
    let s = source.as_str();
    let n = s.unicode_len();
    let mut out = String::new();
    let mut rp: usize = 0;
    let mut depth: usize = 0;
    let mut started = false;
    let mut finished = false;
    let mut in_str = false;
    let mut prev: Option<char> = None;
    let mut i: usize = 0;
    while i < n
        invariant
            n == s@.len(),
            i <= n,
            rp <= i,
            depth <= i,
            pj_state_at(s@, i as int) == (PjState {
                started,
                finished,
                in_str,
                depth: depth as int,
                prev,
            }),
            pj_out(s@, i as int) == out@ + s@.subrange(rp as int, i as int),
        decreases n - i,
    {
        let ghost st = pj_state_at(s@, i as int);
        let c = s.get_char(i);
        let sym = detect_json_symbol(prev, c);
        prev = Some(c);
        proof {
            assert(pj_state_at(s@, i as int + 1) == pj_step(st, s@[i as int]));
            assert(pj_out(s@, i as int + 1) == pj_out(s@, i as int) + pj_emit(st, s@[i as int]));
        }
        if finished || (!started && !matches!(sym, JsonSymbol::ObjectOrArrayStart)) {
            proof {
                assert(pj_out(s@, i as int + 1)
                    =~= out@ + s@.subrange(rp as int, i as int + 1));
            }
            i = i + 1;
            continue;
        }
        started = true;
        if matches!(sym, JsonSymbol::Whitespace) {
            if !in_str {
                out.append(s.substring_char(rp, i));
                rp = i + 1;
                proof {
                    assert(pj_out(s@, i as int + 1)
                        =~= out@ + s@.subrange(rp as int, i as int + 1));
                }
            } else {
                proof {
                    assert(pj_out(s@, i as int + 1)
                        =~= out@ + s@.subrange(rp as int, i as int + 1));
                }
            }
            i = i + 1;
            continue;
        }
        if matches!(sym, JsonSymbol::StringBoundary) {
            in_str = !in_str;
        }
        if !in_str {
            if matches!(sym, JsonSymbol::ObjectOrArrayStart) {
                depth = depth + 1;
            } else if matches!(sym, JsonSymbol::ObjectOrArrayEnd) && depth > 0 {
                depth = depth - 1;
            }
            if matches!(sym, JsonSymbol::ObjectOrArrayEnd) {
                out.append(s.substring_char(rp, i));
                let ind = indent_string(depth);
                out.append(ind.as_str());
                out.append(s.substring_char(i, i + 1));
                rp = i + 1;
                proof {
                    assert(s@.subrange(i as int, i as int + 1) =~= seq![s@[i as int]]);
                    assert(pj_out(s@, i as int + 1)
                        =~= out@ + s@.subrange(rp as int, i as int + 1));
                }
                if depth == 0 {
                    finished = true;
                }
            } else if !matches!(sym, JsonSymbol::NotAJsonSymbol) {
                out.append(s.substring_char(rp, i + 1));
                rp = i + 1;
                if matches!(sym, JsonSymbol::KeyValueSeparator) {
                    out.append(" ");
                    proof {
                        reveal_strlit(" ");
                        assert(" "@ =~= seq![' ']);
                    }
                }
                if matches!(sym, JsonSymbol::ObjectOrArrayStart)
                    || matches!(sym, JsonSymbol::ItemSeparator) {
                    let ind = indent_string(depth);
                    out.append(ind.as_str());
                }
                proof {
                    assert(pj_out(s@, i as int + 1)
                        =~= out@ + s@.subrange(rp as int, i as int + 1));
                }
            } else {
                proof {
                    assert(pj_out(s@, i as int + 1)
                        =~= out@ + s@.subrange(rp as int, i as int + 1));
                }
            }
        } else {
            proof {
                assert(pj_out(s@, i as int + 1)
                    =~= out@ + s@.subrange(rp as int, i as int + 1));
            }
        }
        i = i + 1;
    }
    out.append(s.substring_char(rp, n));
    proof {
        assert(out@ =~= pretty_json_text(source@));
    }
    out
}

} // verus!
