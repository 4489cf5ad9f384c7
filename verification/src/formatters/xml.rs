//! One-pass pretty-printer for XML embedded in arbitrary text, driven by
//! the most common character collocations: each character is classified
//! together with the one before it, so a tag is recognised one position
//! after its `<`, and the indent goes in front of that `<`.
//!
//! An input without `</` anywhere is returned unchanged.
use vstd::prelude::*;
use vstd::string::StrSliceExecFns;
use crate::formatters::{indent_seq, indent_string};
use crate::xml::{XmlSymbol, has_close_tag, find_close_tag};

verus! {

/// What `detect_last_xml_symbol` returns.
pub open spec fn spec_last_xml_symbol(last: Option<char>, c: char) -> XmlSymbol {
    match last {
        Some(l) => if l == '<' {
            if c == '/' {
                XmlSymbol::ElementEnd
            } else if c == '!' || c == '?' {
                XmlSymbol::SameLevelTag
            } else if c == ' ' {
                XmlSymbol::NotATag
            } else {
                XmlSymbol::ElementStart
            }
        } else if l == '>' {
            XmlSymbol::TagEnd
        } else if l == ' ' || l == '\t' {
            XmlSymbol::Whitespace
        } else {
            XmlSymbol::NotATag
        },
        None => XmlSymbol::NotATag,
    }
}

/// Classifies one character, given the one before it.
pub fn detect_last_xml_symbol(last: Option<char>, c: char) -> (r: XmlSymbol)
    ensures
        r == spec_last_xml_symbol(last, c),
{
    match last {
        Some(l) => {
            if l == '<' {
                if c == '/' {
                    XmlSymbol::ElementEnd
                } else if c == '!' || c == '?' {
                    XmlSymbol::SameLevelTag
                } else if c == ' ' {
                    XmlSymbol::NotATag
                } else {
                    XmlSymbol::ElementStart
                }
            } else if l == '>' {
                XmlSymbol::TagEnd
            } else if l == ' ' || l == '\t' {
                XmlSymbol::Whitespace
            } else {
                XmlSymbol::NotATag
            }
        },
        None => XmlSymbol::NotATag,
    }
}

/// An indent goes in front of a tag symbol that follows another tag
/// symbol.
pub open spec fn spec_should_append_indent(sym: XmlSymbol, last: XmlSymbol) -> bool {
    sym != XmlSymbol::NotATag && sym != XmlSymbol::TagEnd && last != XmlSymbol::NotATag
}

/// Decides whether an indent goes in front of the current symbol.
pub fn should_append_indent(sym: &XmlSymbol, last: &XmlSymbol) -> (r: bool)
    ensures
        r == spec_should_append_indent(*sym, *last),
{
    *sym != XmlSymbol::NotATag && *sym != XmlSymbol::TagEnd && *last != XmlSymbol::NotATag
}

/// State of the printer between characters.
pub struct FxState {
    pub depth: int,
    pub started: bool,
    pub last_sym: XmlSymbol,
}

/// State before any character.
pub open spec fn fx_init() -> FxState {
    FxState { depth: 0, started: false, last_sym: XmlSymbol::NotATag }
}

/// The symbol at step `i`: character `i` classified with its predecessor.
pub open spec fn fx_sym(s: Seq<char>, i: int) -> XmlSymbol {
    spec_last_xml_symbol(if i <= 0 { None } else { Some(s[i - 1]) }, s[i])
}

/// Next state after one symbol.
pub open spec fn fx_step(st: FxState, sym: XmlSymbol) -> FxState {
    if sym == XmlSymbol::Whitespace {
        st
    } else {
        let depth_pre = if sym == XmlSymbol::ElementStart && st.started {
            st.depth + 1
        } else {
            st.depth
        };
        let depth = if sym == XmlSymbol::ElementEnd && depth_pre > 0 {
            depth_pre - 1
        } else {
            depth_pre
        };
        FxState {
            depth,
            started: st.started || sym == XmlSymbol::ElementStart,
            last_sym: sym,
        }
    }
}

/// The indent inserted at one step, in front of the preceding character.
pub open spec fn fx_ins(st: FxState, sym: XmlSymbol) -> Seq<char> {
    if sym != XmlSymbol::Whitespace && spec_should_append_indent(sym, st.last_sym) {
        let depth_pre = if sym == XmlSymbol::ElementStart && st.started {
            st.depth + 1
        } else {
            st.depth
        };
        indent_seq(depth_pre)
    } else {
        Seq::empty()
    }
}

/// State after the first `i` steps of `s`.
pub open spec fn fx_state_at(s: Seq<char>, i: int) -> FxState
    decreases i,
{
    if i <= 0 {
        fx_init()
    } else {
        fx_step(fx_state_at(s, i - 1), fx_sym(s, i - 1))
    }
}

/// Output after the first `i` steps: the characters before position
/// `i - 1`, each with any indent inserted in front of it. Emission runs
/// one character behind classification, because a tag is recognised at
/// the character after its `<`.
pub open spec fn fx_out(s: Seq<char>, i: int) -> Seq<char>
    decreases i,
{
    if i <= 0 {
        Seq::empty()
    } else if i == 1 {
        fx_out(s, 0) + fx_ins(fx_state_at(s, 0), fx_sym(s, 0))
    } else {
        fx_out(s, i - 1) + fx_ins(fx_state_at(s, i - 1), fx_sym(s, i - 1)) + seq![s[i - 2]]
    }
}

/// The whole pretty-printed text of an input that has a closing tag.
pub open spec fn pretty_fx_text(s: Seq<char>) -> Seq<char> {
    if s.len() == 0 {
        s
    } else {
        fx_out(s, s.len() as int) + seq![s[s.len() - 1]]
    }
}

/// Pretty-prints XML embedded in `source`. An input with no `</` is
/// returned unchanged, byte for byte; otherwise adjacent tags are put on
/// separate lines with two-space indents, and every input character is
/// kept.
#[verifier::loop_isolation(false)]
pub fn pretty_xml(source: String) -> (r: String)
    ensures
        !has_close_tag(source@) ==> r@ == source@,
        has_close_tag(source@) ==> r@ == pretty_fx_text(source@),
{
    if !find_close_tag(source.as_str()) {
        return source;
    }
    let s = source.as_str();
    let n = s.unicode_len();
    proof {
        assert(n >= 2);
    }
    let mut out = String::new();
    let mut rp: usize = 0;
    let mut depth: usize = 0;
    let mut started = false;
    let mut last_sym = XmlSymbol::NotATag;
    let mut prev: Option<char> = None;
    let mut i: usize = 0;
    while i < n
        invariant
            n == s@.len(),
            2 <= n,
            i <= n,
            i == 0 ==> rp == 0,
            i >= 1 ==> rp <= i - 1,
            depth <= i,
            prev == (if i == 0 { None::<char> } else { Some(s@[i as int - 1]) }),
            fx_state_at(s@, i as int) == (FxState {
                depth: depth as int,
                started,
                last_sym,
            }),
            fx_out(s@, i as int) == out@ + (if i == 0 {
                Seq::<char>::empty()
            } else {
                s@.subrange(rp as int, i as int - 1)
            }),
        decreases n - i,
    {
        let ghost st = fx_state_at(s@, i as int);
        let c = s.get_char(i);
        let sym = detect_last_xml_symbol(prev, c);
        prev = Some(c);
        proof {
            assert(sym == fx_sym(s@, i as int));
            assert(fx_state_at(s@, i as int + 1) == fx_step(st, fx_sym(s@, i as int)));
            if i == 0 {
                assert(fx_out(s@, 1) == fx_out(s@, 0) + fx_ins(st, fx_sym(s@, 0)));
            } else {
                assert(fx_out(s@, i as int + 1) == fx_out(s@, i as int)
                    + fx_ins(st, fx_sym(s@, i as int)) + seq![s@[i as int - 1]]);
            }
        }
        if matches!(sym, XmlSymbol::Whitespace) {
            proof {
                assert(fx_ins(st, fx_sym(s@, i as int)) =~= Seq::<char>::empty());
                if i >= 1 {
                    assert(fx_out(s@, i as int + 1)
                        =~= out@ + s@.subrange(rp as int, i as int));
                }
            }
            i = i + 1;
            continue;
        }
        if matches!(sym, XmlSymbol::ElementStart) {
            if started {
                depth = depth + 1;
            }
            started = true;
        }
        if should_append_indent(&sym, &last_sym) {
            // The first symbol of the input is never a tag symbol, so a
            // trigger only happens from the second character on.
            out.append(s.substring_char(rp, i - 1));
            let ind = indent_string(depth);
            out.append(ind.as_str());
            rp = i - 1;
        }
        proof {
            if i == 0 {
                assert(fx_out(s@, 1) =~= out@);
            } else {
                assert(fx_out(s@, i as int + 1)
                    =~= out@ + s@.subrange(rp as int, i as int));
            }
        }
        if matches!(sym, XmlSymbol::ElementEnd) && depth > 0 {
            depth = depth - 1;
        }
        last_sym = sym;
        i = i + 1;
    }
    out.append(s.substring_char(rp, n));
    proof {
        assert(s@.subrange(rp as int, n as int)
            =~= s@.subrange(rp as int, n as int - 1) + seq![s@[n as int - 1]]);
        assert(out@ =~= pretty_fx_text(source@));
    }
    out
}

} // verus!
