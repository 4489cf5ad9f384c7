//! One-pass pretty-printer for XML embedded in arbitrary text, driven by
//! a one-character lookahead: each character is classified together with
//! the one after it.
//!
//! An input without `</` anywhere is returned unchanged. Otherwise a
//! newline and indent are inserted where one tag follows another, while
//! every input character is kept in order.
use vstd::prelude::*;
use vstd::string::StrSliceExecFns;

verus! {

/// Classification of one character, given the one after it.
#[derive(PartialEq, Eq, Structural, Clone, Copy, Debug)]
pub enum XmlSymbol {
    ElementStart,
    SameLevelTag,
    ElementEnd,
    TagEnd,
    NotATag,
    Whitespace,
}

/// What `detect_xml_symbol` returns.
pub open spec fn spec_xml_symbol(c: char, next: Option<char>) -> XmlSymbol {
    if c == '<' {
        match next {
            Some(n) => if n == '/' {
                XmlSymbol::ElementEnd
            } else if n == '!' || n == '?' {
                XmlSymbol::SameLevelTag
            } else if n == ' ' {
                XmlSymbol::NotATag
            } else {
                XmlSymbol::ElementStart
            },
            None => XmlSymbol::NotATag,
        }
    } else if c == '>' {
        XmlSymbol::TagEnd
    } else if c == ' ' || c == '\t' {
        XmlSymbol::Whitespace
    } else {
        XmlSymbol::NotATag
    }
}

/// Classifies one character, given the one after it.
pub fn detect_xml_symbol(c: char, next: Option<char>) -> (r: XmlSymbol)
    ensures
        r == spec_xml_symbol(c, next),
{
    if c == '<' {
        match next {
            Some(n) => {
                if n == '/' {
                    XmlSymbol::ElementEnd
                } else if n == '!' || n == '?' {
                    XmlSymbol::SameLevelTag
                } else if n == ' ' {
                    XmlSymbol::NotATag
                } else {
                    XmlSymbol::ElementStart
                }
            },
            None => XmlSymbol::NotATag,
        }
    } else if c == '>' {
        XmlSymbol::TagEnd
    } else if c == ' ' || c == '\t' {
        XmlSymbol::Whitespace
    } else {
        XmlSymbol::NotATag
    }
}

/// An indent goes in front of a tag symbol that follows another tag
/// symbol; plain text and closing angles never get one.
pub open spec fn spec_should_append_indent(sym: XmlSymbol, last: XmlSymbol) -> bool {
    sym != XmlSymbol::NotATag && sym != XmlSymbol::TagEnd && last != XmlSymbol::NotATag
}

/// Decides whether an indent goes in front of the current symbol.
pub fn should_append_indent(sym: &XmlSymbol, last: &XmlSymbol) -> (r: bool)
    ensures
        r == spec_should_append_indent(*sym, *last),
{
    *sym != XmlSymbol::NotATag && *sym != XmlSymbol::TagEnd && *last != XmlSymbol::NotATag
}

/// The prepared indent for a depth: a newline and a fixed run of spaces,
/// reusing the deepest prepared indent beyond it.
pub open spec fn xml_indent_seq(depth: int) -> Seq<char> {
    let spaces: int = if depth <= 0 { 0 }
    else if depth == 1 { 2 }
    else if depth == 2 { 4 }
    else if depth == 3 { 6 }
    else if depth == 4 { 8 }
    else if depth == 5 { 10 }
    else if depth == 6 { 13 }
    else { 15 };
    Seq::new((1 + spaces) as nat, |i: int| if i == 0 { '\n' } else { ' ' })
}

/// Builds the indent text for a depth.
fn xml_indent_string(depth: usize) -> (r: String)
    ensures
        r@ == xml_indent_seq(depth as int),
{
    let r: &'static str = if depth == 0 { "\n" }
    else if depth == 1 { "\n  " }
    else if depth == 2 { "\n    " }
    else if depth == 3 { "\n      " }
    else if depth == 4 { "\n        " }
    else if depth == 5 { "\n          " }
    else if depth == 6 { "\n             " }
    else { "\n               " };
    proof {
        reveal_strlit("\n");
        reveal_strlit("\n  ");
        reveal_strlit("\n    ");
        reveal_strlit("\n      ");
        reveal_strlit("\n        ");
        reveal_strlit("\n          ");
        reveal_strlit("\n             ");
        reveal_strlit("\n               ");
        assert(r@ =~= xml_indent_seq(depth as int));
    }
    String::from_str(r)
}

/// `s` contains a closing tag `</` somewhere.
pub open spec fn has_close_tag(s: Seq<char>) -> bool {
    exists|i: int| 0 <= i < s.len() - 1 && #[trigger] s[i] == '<' && s[i + 1] == '/'
}

/// State of the printer between characters.
pub struct XmlState {
    pub depth: int,
    pub started: bool,
    pub last_sym: XmlSymbol,
}

/// State before any character.
pub open spec fn xml_init() -> XmlState {
    XmlState { depth: 0, started: false, last_sym: XmlSymbol::NotATag }
}

/// Next state after one character (with its lookahead).
pub open spec fn xml_step(st: XmlState, c: char, next: Option<char>) -> XmlState {
    let sym = spec_xml_symbol(c, next);
    if sym == XmlSymbol::Whitespace {
        st
    } else {
        let depth_pre = if sym == XmlSymbol::ElementStart && st.started {
            st.depth + 1
        } else {
            st.depth
        };
        let depth = if sym == XmlSymbol::ElementEnd && depth_pre > 0 {
            depth_pre - 1
        } else {
            depth_pre
        };
        XmlState {
            depth,
            started: st.started || sym == XmlSymbol::ElementStart,
            last_sym: sym,
        }
    }
}

/// Output for one character: the character itself, with an indent in
/// front where one tag symbol follows another.
pub open spec fn xml_emit(st: XmlState, c: char, next: Option<char>) -> Seq<char> {
    let sym = spec_xml_symbol(c, next);
    if sym == XmlSymbol::Whitespace {
        seq![c]
    } else {
        let depth_pre = if sym == XmlSymbol::ElementStart && st.started {
            st.depth + 1
        } else {
            st.depth
        };
        if spec_should_append_indent(sym, st.last_sym) {
            xml_indent_seq(depth_pre) + seq![c]
        } else {
            seq![c]
        }
    }
}

/// Lookahead at position `i`.
pub open spec fn xml_next(s: Seq<char>, i: int) -> Option<char> {
    if i + 1 < s.len() {
        Some(s[i + 1])
    } else {
        None
    }
}

/// State after the first `i` characters of `s`.
pub open spec fn xml_state_at(s: Seq<char>, i: int) -> XmlState
    decreases i,
{
    if i <= 0 {
        xml_init()
    } else {
        xml_step(xml_state_at(s, i - 1), s[i - 1], xml_next(s, i - 1))
    }
}

/// Output for the first `i` characters of `s`.
pub open spec fn xml_out(s: Seq<char>, i: int) -> Seq<char>
    decreases i,
{
    if i <= 0 {
        Seq::empty()
    } else {
        xml_out(s, i - 1) + xml_emit(xml_state_at(s, i - 1), s[i - 1], xml_next(s, i - 1))
    }
}

/// The whole pretty-printed text of an input that has a closing tag.
pub open spec fn pretty_xml_text(s: Seq<char>) -> Seq<char> {
    xml_out(s, s.len() as int)
}

/// Finds a `</` pair in `s`.
pub fn find_close_tag(s: &str) -> (r: bool)
    ensures
        r == has_close_tag(s@),
{
    let n = s.unicode_len();
    if n < 2 {
        proof {
            assert(!has_close_tag(s@));
        }
        return false;
    }
    let mut i: usize = 0;
    while i < n - 1
        invariant
            n == s@.len(),
            2 <= n,
            i <= n - 1,
            forall|j: int| 0 <= j < i ==> !(#[trigger] s@[j] == '<' && s@[j + 1] == '/'),
        decreases n - i,
    {
        if s.get_char(i) == '<' && s.get_char(i + 1) == '/' {
            assert(has_close_tag(s@));
            return true;
        }
        i = i + 1;
    }
    proof {
        assert(!has_close_tag(s@));
    }
    false
}

/// Pretty-prints XML embedded in `source`. An input with no `</` is
/// returned unchanged, byte for byte; otherwise adjacent tags are put on
/// separate lines with the prepared indents, and every input character
/// is kept.
#[verifier::loop_isolation(false)]
pub fn pretty_xml(source: String) -> (r: String)
    ensures
        !has_close_tag(source@) ==> r@ == source@,
        has_close_tag(source@) ==> r@ == pretty_xml_text(source@),
{
    if !find_close_tag(source.as_str()) {
        return source;
    }
    let s = source.as_str();
    let n = s.unicode_len();
    let mut out = String::new();
    let mut rp: usize = 0;
    let mut depth: usize = 0;
    let mut started = false;
    let mut last_sym = XmlSymbol::NotATag;
    let mut i: usize = 0;
    while i < n
        invariant
            n == s@.len(),
            i <= n,
            rp <= i,
            depth <= i,
            xml_state_at(s@, i as int) == (XmlState {
                depth: depth as int,
                started,
                last_sym,
            }),
            xml_out(s@, i as int) == out@ + s@.subrange(rp as int, i as int),
        decreases n - i,
    {
        let ghost st = xml_state_at(s@, i as int);
        let c = s.get_char(i);
        let next = if i + 1 < n {
            Some(s.get_char(i + 1))
        } else {
            None
        };
        let sym = detect_xml_symbol(c, next);
        proof {
            assert(next == xml_next(s@, i as int));
            assert(xml_state_at(s@, i as int + 1)
                == xml_step(st, s@[i as int], xml_next(s@, i as int)));
            assert(xml_out(s@, i as int + 1) == xml_out(s@, i as int)
                + xml_emit(st, s@[i as int], xml_next(s@, i as int)));
        }
        if matches!(sym, XmlSymbol::Whitespace) {
            proof {
                assert(xml_out(s@, i as int + 1)
                    =~= out@ + s@.subrange(rp as int, i as int + 1));
            }
            i = i + 1;
            continue;
        }
        if matches!(sym, XmlSymbol::ElementStart) {
            if started {
                depth = depth + 1;
            }
            started = true;
        }
        if should_append_indent(&sym, &last_sym) {
            out.append(s.substring_char(rp, i));
            let ind = xml_indent_string(depth);
            out.append(ind.as_str());
            rp = i;
        }
        proof {
            assert(xml_out(s@, i as int + 1)
                =~= out@ + s@.subrange(rp as int, i as int + 1));
        }
        if matches!(sym, XmlSymbol::ElementEnd) && depth > 0 {
            depth = depth - 1;
        }
        last_sym = sym;
        i = i + 1;
    }
    out.append(s.substring_char(rp, n));
    proof {
        assert(out@ =~= pretty_xml_text(source@));
    }
    out
}

} // verus!
