//! Compact JSON serialization of the object tree, with the escaping rules
//! of standard JSON text: quote, backslash and control characters are
//! escaped, everything else is copied as it stands.
use vstd::prelude::*;
use vstd::string::StrSliceExecFns;
use crate::processor::{JsonVal, JsonValue, arr_view, obj_entries_view, lemma_arr_view,
    lemma_obj_entries_view};

verus! {

/// Escape for one character inside a JSON string literal.
pub open spec fn esc_char(c: char) -> Seq<char> {
    if c == '"' {
        seq!['\\', '"']
    } else if c == '\\' {
        seq!['\\', '\\']
    } else if c == '\n' {
        seq!['\\', 'n']
    } else if c == '\r' {
        seq!['\\', 'r']
    } else if c == '\t' {
        seq!['\\', 't']
    } else if c == '\u{8}' {
        seq!['\\', 'b']
    } else if c == '\u{c}' {
        seq!['\\', 'f']
    } else if (c as int) < 0x20 {
        let d = c as int;
        seq!['\\', 'u', '0', '0'] + seq![hex_digit(d / 16)] + seq![hex_digit(d % 16)]
    } else {
        seq![c]
    }
}

/// Lower-case hex digit for a value in `0..16`.
pub open spec fn hex_digit(d: int) -> char {
    if d == 0 { '0' }
    else if d == 1 { '1' }
    else if d == 2 { '2' }
    else if d == 3 { '3' }
    else if d == 4 { '4' }
    else if d == 5 { '5' }
    else if d == 6 { '6' }
    else if d == 7 { '7' }
    else if d == 8 { '8' }
    else if d == 9 { '9' }
    else if d == 10 { 'a' }
    else if d == 11 { 'b' }
    else if d == 12 { 'c' }
    else if d == 13 { 'd' }
    else if d == 14 { 'e' }
    else { 'f' }
}

/// The body of a JSON string literal for `s`.
pub open spec fn escape_seq(s: Seq<char>) -> Seq<char>
    decreases s.len(),
{
    if s.len() == 0 {
        Seq::empty()
    } else {
        esc_char(s[0]) + escape_seq(s.drop_first())
    }
}

/// A whole JSON string literal, quotes included.
pub open spec fn ser_string(s: Seq<char>) -> Seq<char> {
    seq!['"'] + escape_seq(s) + seq!['"']
}

/// Compact JSON text of a document.
pub open spec fn ser_val(v: JsonVal) -> Seq<char>
    decreases v,
    via ser_val_decreases
{
    match v {
        JsonVal::Null => seq!['n', 'u', 'l', 'l'],
        JsonVal::Bool(b) => if b {
            seq!['t', 'r', 'u', 'e']
        } else {
            seq!['f', 'a', 'l', 's', 'e']
        },
        JsonVal::Number(s) => s,
        JsonVal::Text(s) => ser_string(s),
        JsonVal::Array(vs) => seq!['['] + ser_items(vs) + seq![']'],
        JsonVal::Object(es) => seq!['{'] + ser_entries(es) + seq!['}'],
    }
}

/// Comma-separated items of an array.
pub open spec fn ser_items(vs: Seq<JsonVal>) -> Seq<char>
    decreases vs,
    via ser_items_decreases
{
    if vs.len() == 0 {
        Seq::empty()
    } else if vs.len() == 1 {
        ser_val(vs[0])
    } else {
        ser_val(vs[0]) + seq![','] + ser_items(vs.subrange(1, vs.len() as int))
    }
}

/// Comma-separated `"key":value` entries of an object.
pub open spec fn ser_entries(es: Seq<(Seq<char>, JsonVal)>) -> Seq<char>
    decreases es,
    via ser_entries_decreases
{
    if es.len() == 0 {
        Seq::empty()
    } else if es.len() == 1 {
        ser_entry(es[0])
    } else {
        ser_entry(es[0]) + seq![','] + ser_entries(es.subrange(1, es.len() as int))
    }
}

/// One `"key":value` entry.
pub open spec fn ser_entry(e: (Seq<char>, JsonVal)) -> Seq<char>
    decreases e,
    via ser_entry_decreases
{
    ser_string(e.0) + seq![':'] + ser_val(e.1)
}

#[via_fn]
proof fn ser_entry_decreases(e: (Seq<char>, JsonVal)) {
    assert(decreases_to!(e => e.1));
}

#[via_fn]
proof fn ser_val_decreases(v: JsonVal) {
    match v {
        JsonVal::Array(vs) => {
            assert(decreases_to!(v => vs));
        },
        JsonVal::Object(es) => {
            assert(decreases_to!(v => es));
        },
        _ => {},
    }
}

#[via_fn]
proof fn ser_items_decreases(vs: Seq<JsonVal>) {
    if vs.len() >= 1 {
        assert(decreases_to!(vs => vs[0]));
        if vs.len() > 1 {
            assert(decreases_to!(vs => vs.subrange(1, vs.len() as int)));
        }
    }
}

#[via_fn]
proof fn ser_entries_decreases(es: Seq<(Seq<char>, JsonVal)>) {
    if es.len() >= 1 {
        assert(decreases_to!(es => es[0]));
        assert(decreases_to!(es[0] => es[0].1));
        if es.len() > 1 {
            assert(decreases_to!(es => es.subrange(1, es.len() as int)));
        }
    }
}

/// Appending one item extends the comma-separated text at the end.
proof fn lemma_ser_items_push(vs: Seq<JsonVal>, x: JsonVal)
    ensures
        ser_items(vs.push(x)) == if vs.len() == 0 {
            ser_val(x)
        } else {
            ser_items(vs) + seq![','] + ser_val(x)
        },
    decreases vs.len(),
{
    let w = vs.push(x);
    if vs.len() == 0 {
        assert(w.len() == 1);
        assert(w[0] == x);
    } else {
        assert(w[0] == vs[0]);
        lemma_ser_items_push(vs.subrange(1, vs.len() as int), x);
        assert(w.subrange(1, w.len() as int) =~= vs.subrange(1, vs.len() as int).push(x));
        if vs.len() == 1 {
            assert(vs.subrange(1, 1) =~= Seq::<JsonVal>::empty());
            assert(ser_items(w) == ser_val(vs[0]) + seq![','] + ser_val(x));
            assert(ser_items(vs) == ser_val(vs[0]));
        } else {
            assert(ser_items(w)
                == ser_val(vs[0]) + seq![','] + ser_items(w.subrange(1, w.len() as int)));
            assert(ser_items(vs) + seq![','] + ser_val(x)
                =~= ser_val(vs[0]) + seq![',']
                    + (ser_items(vs.subrange(1, vs.len() as int)) + seq![','] + ser_val(x)));
            assert(ser_items(w) =~= ser_items(vs) + seq![','] + ser_val(x));
        }
    }
}

/// Appending one entry extends the comma-separated text at the end.
proof fn lemma_ser_entries_push(es: Seq<(Seq<char>, JsonVal)>, e: (Seq<char>, JsonVal))
    ensures
        ser_entries(es.push(e)) == if es.len() == 0 {
            ser_entry(e)
        } else {
            ser_entries(es) + seq![','] + ser_entry(e)
        },
    decreases es.len(),
{
    let w = es.push(e);
    if es.len() == 0 {
        assert(w.len() == 1);
        assert(w[0] == e);
    } else {
        assert(w[0] == es[0]);
        lemma_ser_entries_push(es.subrange(1, es.len() as int), e);
        assert(w.subrange(1, w.len() as int) =~= es.subrange(1, es.len() as int).push(e));
        if es.len() == 1 {
            assert(es.subrange(1, 1) =~= Seq::<(Seq<char>, JsonVal)>::empty());
            assert(ser_entries(w) == ser_entry(es[0]) + seq![','] + ser_entry(e));
            assert(ser_entries(es) == ser_entry(es[0]));
        } else {
            assert(ser_entries(w)
                == ser_entry(es[0]) + seq![','] + ser_entries(w.subrange(1, w.len() as int)));
            assert(ser_entries(es) + seq![','] + ser_entry(e)
                =~= ser_entry(es[0]) + seq![',']
                    + (ser_entries(es.subrange(1, es.len() as int)) + seq![','] + ser_entry(e)));
            assert(ser_entries(w) =~= ser_entries(es) + seq![','] + ser_entry(e));
        }
    }
}

/// One-character string for a hex digit value.
fn hex_digit_str(d: u32) -> (r: &'static str)
    requires
        d < 16,
    ensures
        r@ == seq![hex_digit(d as int)],
{
    let r: &'static str = if d == 0 { "0" }
    else if d == 1 { "1" }
    else if d == 2 { "2" }
    else if d == 3 { "3" }
    else if d == 4 { "4" }
    else if d == 5 { "5" }
    else if d == 6 { "6" }
    else if d == 7 { "7" }
    else if d == 8 { "8" }
    else if d == 9 { "9" }
    else if d == 10 { "a" }
    else if d == 11 { "b" }
    else if d == 12 { "c" }
    else if d == 13 { "d" }
    else if d == 14 { "e" }
    else { "f" };
    proof {
        reveal_strlit("0");
        reveal_strlit("1");
        reveal_strlit("2");
        reveal_strlit("3");
        reveal_strlit("4");
        reveal_strlit("5");
        reveal_strlit("6");
        reveal_strlit("7");
        reveal_strlit("8");
        reveal_strlit("9");
        reveal_strlit("a");
        reveal_strlit("b");
        reveal_strlit("c");
        reveal_strlit("d");
        reveal_strlit("e");
        reveal_strlit("f");
        assert(r@ =~= seq![hex_digit(d as int)]);
    }
    r
}

/// Escapes the body of a JSON string literal.
pub fn escape_json_string(s: &str) -> (r: String)
    ensures
        r@ == escape_seq(s@),
{
    let n = s.unicode_len();
    let mut out = String::new();
    let mut i: usize = 0;
    while i < n
        invariant
            n == s@.len(),
            i <= n,
            out@ == escape_seq(s@.subrange(0, i as int)),
        decreases n - i,
    {
        let ghost prefix = s@.subrange(0, i as int);
        let c = s.get_char(i);
        if c == '"' {
            out.append("\\\"");
            proof { reveal_strlit("\\\""); }
        } else if c == '\\' {
            out.append("\\\\");
            proof { reveal_strlit("\\\\"); }
        } else if c == '\n' {
            out.append("\\n");
            proof { reveal_strlit("\\n"); }
        } else if c == '\r' {
            out.append("\\r");
            proof { reveal_strlit("\\r"); }
        } else if c == '\t' {
            out.append("\\t");
            proof { reveal_strlit("\\t"); }
        } else if c == '\u{8}' {
            out.append("\\b");
            proof { reveal_strlit("\\b"); }
        } else if c == '\u{c}' {
            out.append("\\f");
            proof { reveal_strlit("\\f"); }
        } else if (c as u32) < 0x20 {
            out.append("\\u00");
            out.append(hex_digit_str((c as u32) / 16));
            out.append(hex_digit_str((c as u32) % 16));
            proof { reveal_strlit("\\u00"); }
        } else {
            out.append(s.substring_char(i, i + 1));
            proof {
                assert(s@.subrange(i as int, i as int + 1) =~= seq![s@[i as int]]);
            }
        }
        proof {
            assert(s@.subrange(0, i as int + 1) =~= prefix.push(s@[i as int]));
            lemma_escape_seq_push(prefix, s@[i as int]);
            assert(out@ =~= escape_seq(s@.subrange(0, i as int + 1)));
        }
        i = i + 1;
    }
    proof {
        assert(s@.subrange(0, n as int) =~= s@);
    }
    out
}

/// Escaping one more character appends its escape.
proof fn lemma_escape_seq_push(s: Seq<char>, c: char)
    ensures
        escape_seq(s.push(c)) == escape_seq(s) + esc_char(c),
    decreases s.len(),
{
    let w = s.push(c);
    if s.len() == 0 {
        assert(w[0] == c);
        assert(w.drop_first() =~= Seq::<char>::empty());
        assert(escape_seq(w.drop_first()) =~= Seq::<char>::empty());
        assert(escape_seq(w) =~= esc_char(c));
        assert(escape_seq(s) + esc_char(c) =~= esc_char(c));
    } else {
        assert(w[0] == s[0]);
        lemma_escape_seq_push(s.drop_first(), c);
        assert(w.drop_first() =~= s.drop_first().push(c));
        assert(escape_seq(w) =~= escape_seq(s) + esc_char(c));
    }
}

/// A whole JSON string literal for `s`, quotes included.
fn quoted(s: &str) -> (r: String)
    ensures
        r@ == ser_string(s@),
{
    let mut out = String::new();
    out.append("\"");
    let body = escape_json_string(s);
    out.append(body.as_str());
    out.append("\"");
    proof {
        reveal_strlit("\"");
        assert(out@ =~= ser_string(s@));
    }
    out
}

/// Serializes a document to compact JSON text.
#[verifier::loop_isolation(false)]
pub fn to_json_string(v: &JsonValue) -> (r: String)
    ensures
        r@ == ser_val(v@),
    decreases *v,
{
    match v {
        JsonValue::Null => {
            let out = String::from_str("null");
            proof {
                reveal_strlit("null");
                assert(out@ =~= ser_val(v@));
            }
            out
        },
        JsonValue::Bool(b) => {
            let out = if *b {
                String::from_str("true")
            } else {
                String::from_str("false")
            };
            proof {
                reveal_strlit("true");
                reveal_strlit("false");
                assert(out@ =~= ser_val(v@));
            }
            out
        },
        JsonValue::Number(s) => s.clone(),
        JsonValue::Text(s) => quoted(s.as_str()),
        JsonValue::Array(vs) => {
            let mut out = String::new();
            out.append("[");
            proof {
                reveal_strlit("[");
                reveal_strlit("]");
                reveal_strlit(",");
                lemma_arr_view(vs@);
            }
            let n = vs.len();
            let mut j: usize = 0;
            while j < n
                invariant
                    n == vs@.len(),
                    j <= n,
                    arr_view(vs@).len() == n,
                    forall|m: int| 0 <= m < n ==> #[trigger] arr_view(vs@)[m]
                        == crate::processor::json_view(vs@[m]),
                    out@ == seq!['['] + ser_items(arr_view(vs@).subrange(0, j as int)),
                    "["@ == seq!['['],
                    "]"@ == seq![']'],
                    ","@ == seq![','],
                decreases n - j,
            {
                let ghost prefix = arr_view(vs@).subrange(0, j as int);
                if j > 0 {
                    out.append(",");
                }
                proof {
                    assert(*v == JsonValue::Array(*vs));
                    assert(decreases_to!(*v => (*v)->Array_0));
                    assert(decreases_to!(*vs => vs@));
                    assert(decreases_to!(vs@ => vs@[j as int]));
                }
                let piece = to_json_string(&vs[j]);
                out.append(piece.as_str());
                proof {
                    lemma_ser_items_push(prefix, arr_view(vs@)[j as int]);
                    assert(arr_view(vs@).subrange(0, j as int + 1)
                        =~= prefix.push(arr_view(vs@)[j as int]));
                    assert(out@ =~= seq!['[']
                        + ser_items(arr_view(vs@).subrange(0, j as int + 1)));
                }
                j = j + 1;
            }
            out.append("]");
            proof {
                assert(arr_view(vs@).subrange(0, n as int) =~= arr_view(vs@));
                assert(out@ =~= ser_val(v@));
            }
            out
        },
        JsonValue::Object(es) => {
            let mut out = String::new();
            out.append("{");
            proof {
                reveal_strlit("{");
                reveal_strlit("}");
                reveal_strlit(",");
                reveal_strlit(":");
                lemma_obj_entries_view(es@);
            }
            let n = es.len();
            let mut j: usize = 0;
            while j < n
                invariant
                    n == es@.len(),
                    j <= n,
                    obj_entries_view(es@).len() == n,
                    forall|m: int| 0 <= m < n ==> #[trigger] obj_entries_view(es@)[m]
                        == (es@[m].0@, crate::processor::json_view(es@[m].1)),
                    out@ == seq!['{'] + ser_entries(obj_entries_view(es@).subrange(0, j as int)),
                    "{"@ == seq!['{'],
                    "}"@ == seq!['}'],
                    ","@ == seq![','],
                    ":"@ == seq![':'],
                decreases n - j,
            {
                let ghost prefix = obj_entries_view(es@).subrange(0, j as int);
                if j > 0 {
                    out.append(",");
                }
                let key_text = quoted(es[j].0.as_str());
                out.append(key_text.as_str());
                out.append(":");
                proof {
                    assert(*v == JsonValue::Object(*es));
                    assert(decreases_to!(*v => (*v)->Object_0));
                    assert(decreases_to!(*es => es@));
                    assert(decreases_to!(es@ => es@[j as int]));
                    assert(decreases_to!(es@[j as int] => es@[j as int].1));
                }
                let piece = to_json_string(&es[j].1);
                out.append(piece.as_str());
                proof {
                    lemma_ser_entries_push(prefix, obj_entries_view(es@)[j as int]);
                    assert(obj_entries_view(es@).subrange(0, j as int + 1)
                        =~= prefix.push(obj_entries_view(es@)[j as int]));
                    assert(out@ =~= seq!['{']
                        + ser_entries(obj_entries_view(es@).subrange(0, j as int + 1)));
                }
                j = j + 1;
            }
            out.append("}");
            proof {
                assert(obj_entries_view(es@).subrange(0, n as int) =~= obj_entries_view(es@));
                assert(out@ =~= ser_val(v@));
            }
            out
        },
    }
}

} // verus!
