//! The JSON object tree: typed path-based `get` and `insert` with
//! auto-vivification, and the per-message output document built by the
//! transform steps.
//!
//! The mathematical model is `JsonVal`, a mirror of the executable
//! `JsonValue` over `Seq`; every operation is specified against it.
use vstd::prelude::*;
use crate::error::{ErrorKind, ProcessingError};
use crate::serialize::{ser_val, to_json_string};
use crate::strutil::str_eq;

verus! {

#[verifier::external_type_specification]
#[verifier::external_body]
pub struct ExSerdeValue(serde_json::Value);

/// One segment of a path into a JSON document: an array index or an
/// object key.
#[derive(Debug)]
pub enum ObjectKey {
    Index(usize),
    Key(String),
}

/// Spec-level form of a path segment.
pub enum SegView {
    Index(int),
    Key(Seq<char>),
}

impl View for ObjectKey {
    type V = SegView;

    open spec fn view(&self) -> SegView {
        match self {
            ObjectKey::Index(i) => SegView::Index(*i as int),
            ObjectKey::Key(s) => SegView::Key(s@),
        }
    }
}

impl ObjectKey {
    /// An equal copy of this segment.
    pub fn duplicate(&self) -> (r: ObjectKey)
        ensures
            r@ == self@,
    {
        match self {
            ObjectKey::Index(i) => ObjectKey::Index(*i),
            ObjectKey::Key(s) => ObjectKey::Key(s.clone()),
        }
    }
}

/// The spec view of a whole path.
pub open spec fn path_view(path: Seq<ObjectKey>) -> Seq<SegView> {
    path.map_values(|k: ObjectKey| k@)
}

/// A JSON document. `Number` carries the decimal text of the number;
/// `Object` keeps its entries in insertion order with unique keys.
#[derive(Debug)]
pub enum JsonValue {
    Null,
    Bool(bool),
    Number(String),
    Text(String),
    Array(Vec<JsonValue>),
    Object(Vec<(String, JsonValue)>),
}

/// Spec-level mirror of `JsonValue`.
pub enum JsonVal {
    Null,
    Bool(bool),
    Number(Seq<char>),
    Text(Seq<char>),
    Array(Seq<JsonVal>),
    Object(Seq<(Seq<char>, JsonVal)>),
}

/// Spec view of a document.
pub open spec fn json_view(v: JsonValue) -> JsonVal
    decreases v,
    via json_view_decreases
{
    match v {
        JsonValue::Null => JsonVal::Null,
        JsonValue::Bool(b) => JsonVal::Bool(b),
        JsonValue::Number(s) => JsonVal::Number(s@),
        JsonValue::Text(s) => JsonVal::Text(s@),
        JsonValue::Array(a) => JsonVal::Array(arr_view(a@)),
        JsonValue::Object(es) => JsonVal::Object(obj_entries_view(es@)),
    }
}

/// Spec view of a sequence of array elements.
pub open spec fn arr_view(s: Seq<JsonValue>) -> Seq<JsonVal>
    decreases s,
    via arr_view_decreases
{
    if s.len() == 0 {
        Seq::empty()
    } else {
        arr_view(s.subrange(0, s.len() - 1)).push(json_view(s[s.len() - 1]))
    }
}

/// Spec view of a sequence of object entries.
pub open spec fn obj_entries_view(es: Seq<(String, JsonValue)>) -> Seq<(Seq<char>, JsonVal)>
    decreases es,
    via obj_entries_view_decreases
{
    if es.len() == 0 {
        Seq::empty()
    } else {
        obj_entries_view(es.subrange(0, es.len() - 1)).push(
            (es[es.len() - 1].0@, json_view(es[es.len() - 1].1)),
        )
    }
}

#[via_fn]
proof fn json_view_decreases(v: JsonValue) {
    match v {
        JsonValue::Array(a) => {
            assert(decreases_to!(v => a));
            assert(decreases_to!(a => a@));
        },
        JsonValue::Object(es) => {
            assert(decreases_to!(v => es));
            assert(decreases_to!(es => es@));
        },
        _ => {},
    }
}

#[via_fn]
proof fn arr_view_decreases(s: Seq<JsonValue>) {
    if s.len() > 0 {
        assert(decreases_to!(s => s.subrange(0, s.len() - 1)));
        assert(decreases_to!(s => s[s.len() - 1]));
    }
}

#[via_fn]
proof fn obj_entries_view_decreases(es: Seq<(String, JsonValue)>) {
    if es.len() > 0 {
        assert(decreases_to!(es => es.subrange(0, es.len() - 1)));
        assert(decreases_to!(es => es[es.len() - 1]));
        assert(decreases_to!(es[es.len() - 1] => es[es.len() - 1].1));
    }
}

/// `arr_view` is the pointwise view of its elements.
pub proof fn lemma_arr_view(s: Seq<JsonValue>)
    ensures
        arr_view(s).len() == s.len(),
        forall|i: int| 0 <= i < s.len() ==> #[trigger] arr_view(s)[i] == json_view(s[i]),
    decreases s.len(),
{
    if s.len() > 0 {
        lemma_arr_view(s.subrange(0, s.len() - 1));
        assert forall|i: int| 0 <= i < s.len() implies #[trigger] arr_view(s)[i]
            == json_view(s[i]) by {
            if i < s.len() - 1 {
                assert(s.subrange(0, s.len() - 1)[i] == s[i]);
            }
        }
    }
}

/// `obj_entries_view` is the pointwise view of its entries.
pub proof fn lemma_obj_entries_view(es: Seq<(String, JsonValue)>)
    ensures
        obj_entries_view(es).len() == es.len(),
        forall|i: int| 0 <= i < es.len() ==> #[trigger] obj_entries_view(es)[i]
            == (es[i].0@, json_view(es[i].1)),
    decreases es.len(),
{
    if es.len() > 0 {
        lemma_obj_entries_view(es.subrange(0, es.len() - 1));
        assert forall|i: int| 0 <= i < es.len() implies #[trigger] obj_entries_view(es)[i]
            == (es[i].0@, json_view(es[i].1)) by {
            if i < es.len() - 1 {
                assert(es.subrange(0, es.len() - 1)[i] == es[i]);
            }
        }
    }
}

impl View for JsonValue {
    type V = JsonVal;

    open spec fn view(&self) -> JsonVal {
        json_view(*self)
    }
}

/// First entry of `es` with key `k`, if any.
pub open spec fn obj_get(es: Seq<(Seq<char>, JsonVal)>, k: Seq<char>) -> Option<JsonVal>
    decreases es.len(),
{
    if es.len() == 0 {
        None
    } else if es[0].0 == k {
        Some(es[0].1)
    } else {
        obj_get(es.drop_first(), k)
    }
}

/// `es` with the first entry keyed `k` replaced by `v`, or `(k, v)`
/// appended when no entry has that key.
pub open spec fn obj_set(es: Seq<(Seq<char>, JsonVal)>, k: Seq<char>, v: JsonVal)
    -> Seq<(Seq<char>, JsonVal)>
    decreases es.len(),
{
    if es.len() == 0 {
        seq![(k, v)]
    } else if es[0].0 == k {
        seq![(es[0].0, v)] + es.drop_first()
    } else {
        seq![es[0]] + obj_set(es.drop_first(), k, v)
    }
}

/// The empty container a segment demands: an object under a key, an
/// array under an index.
pub open spec fn fresh_for(seg: SegView) -> JsonVal {
    match seg {
        SegView::Key(_) => JsonVal::Object(Seq::empty()),
        SegView::Index(_) => JsonVal::Array(Seq::empty()),
    }
}

/// `vs` grown with `Null` padding to at least `n` slots.
pub open spec fn pad_nulls(vs: Seq<JsonVal>, n: int) -> Seq<JsonVal> {
    if vs.len() >= n {
        vs
    } else {
        vs + Seq::new((n - vs.len()) as nat, |i: int| JsonVal::Null)
    }
}

/// May `x` overwrite `old`? Overwriting nothing, `Null`, a scalar or the
/// same container kind is allowed; replacing a container by anything of
/// another shape is not.
pub open spec fn may_overwrite(old: Option<JsonVal>, x: JsonVal) -> bool {
    match old {
        Some(JsonVal::Object(_)) => x is Object,
        Some(JsonVal::Array(_)) => x is Array,
        _ => true,
    }
}

/// Value at `path[i..]` under `v`, if the tree has it.
pub open spec fn get_at(v: JsonVal, path: Seq<SegView>, i: int) -> Option<JsonVal>
    decreases path.len() - i,
    when 0 <= i <= path.len()
{
    if i == path.len() {
        Some(v)
    } else {
        match (path[i], v) {
            (SegView::Key(k), JsonVal::Object(es)) => {
                match obj_get(es, k) {
                    Some(c) => get_at(c, path, i + 1),
                    None => None,
                }
            },
            (SegView::Index(ix), JsonVal::Array(vs)) => {
                if 0 <= ix < vs.len() {
                    get_at(vs[ix], path, i + 1)
                } else {
                    None
                }
            },
            _ => None,
        }
    }
}

/// Result of inserting `x` at `path[i..]` under `v`: the new tree, or
/// `None` when a segment demand or the overwrite rule is violated.
/// Absent or `Null` intermediate slots become the empty container the
/// next segment demands; arrays grow with `Null` padding.
pub open spec fn insert_at(v: JsonVal, path: Seq<SegView>, i: int, x: JsonVal)
    -> Option<JsonVal>
    decreases path.len() - i,
    when 0 <= i < path.len()
{
    match (path[i], v) {
        (SegView::Key(k), JsonVal::Object(es)) => {
            if i == path.len() - 1 {
                if may_overwrite(obj_get(es, k), x) {
                    Some(JsonVal::Object(obj_set(es, k, x)))
                } else {
                    None
                }
            } else {
                let child = if obj_get(es, k) is None
                    || obj_get(es, k) matches Some(JsonVal::Null) {
                    fresh_for(path[i + 1])
                } else {
                    obj_get(es, k).unwrap()
                };
                match insert_at(child, path, i + 1, x) {
                    Some(c) => Some(JsonVal::Object(obj_set(es, k, c))),
                    None => None,
                }
            }
        },
        (SegView::Index(ix), JsonVal::Array(vs0)) => {
            if ix < 0 {
                None
            } else {
                let vs = pad_nulls(vs0, ix + 1);
                if i == path.len() - 1 {
                    if may_overwrite(Some(vs[ix]), x) {
                        Some(JsonVal::Array(vs.update(ix, x)))
                    } else {
                        None
                    }
                } else {
                    let child = if vs[ix] is Null {
                        fresh_for(path[i + 1])
                    } else {
                        vs[ix]
                    };
                    match insert_at(child, path, i + 1, x) {
                        Some(c) => Some(JsonVal::Array(vs.update(ix, c))),
                        None => None,
                    }
                }
            }
        },
        _ => None,
    }
}

/// First index of `es` whose key reads `k`, scanning in order.
fn obj_find(es: &Vec<(String, JsonValue)>, k: &str) -> (r: Option<usize>)
    ensures
        match r {
            Some(j) => j < es@.len() && es@[j as int].0@ == k@
                && forall|i: int| 0 <= i < j ==> es@[i].0@ != k@,
            None => forall|i: int| 0 <= i < es@.len() ==> es@[i].0@ != k@,
        },
{
    let n = es.len();
    let mut j: usize = 0;
    while j < n
        invariant
            n == es@.len(),
            j <= n,
            forall|i: int| 0 <= i < j ==> es@[i].0@ != k@,
        decreases n - j,
    {
        if str_eq(es[j].0.as_str(), k) {
            return Some(j);
        }
        j = j + 1;
    }
    None
}

/// `obj_get` returns the first match found by a forward scan.
proof fn lemma_obj_get_first_match(es: Seq<(Seq<char>, JsonVal)>, k: Seq<char>, j: int)
    requires
        0 <= j < es.len(),
        es[j].0 == k,
        forall|i: int| 0 <= i < j ==> es[i].0 != k,
    ensures
        obj_get(es, k) == Some(es[j].1),
    decreases j,
{
    if j > 0 {
        lemma_obj_get_first_match(es.drop_first(), k, j - 1);
    }
}

/// With no matching key, `obj_get` finds nothing.
proof fn lemma_obj_get_none(es: Seq<(Seq<char>, JsonVal)>, k: Seq<char>)
    requires
        forall|i: int| 0 <= i < es.len() ==> es[i].0 != k,
    ensures
        obj_get(es, k) is None,
    decreases es.len(),
{
    if es.len() > 0 {
        lemma_obj_get_none(es.drop_first(), k);
    }
}

/// `obj_set` on the first match is a pointwise update.
proof fn lemma_obj_set_update(es: Seq<(Seq<char>, JsonVal)>, k: Seq<char>, v: JsonVal, j: int)
    requires
        0 <= j < es.len(),
        es[j].0 == k,
        forall|i: int| 0 <= i < j ==> es[i].0 != k,
    ensures
        obj_set(es, k, v) =~= es.update(j, (es[j].0, v)),
    decreases j,
{
    if j == 0 {
        assert(seq![(es[0].0, v)] + es.drop_first() =~= es.update(0, (es[0].0, v)));
    } else {
        lemma_obj_set_update(es.drop_first(), k, v, j - 1);
        assert(seq![es[0]] + es.drop_first().update(j - 1, (es[j].0, v))
            =~= es.update(j, (es[j].0, v)));
    }
}

/// With no matching key, `obj_set` appends.
proof fn lemma_obj_set_push(es: Seq<(Seq<char>, JsonVal)>, k: Seq<char>, v: JsonVal)
    requires
        forall|i: int| 0 <= i < es.len() ==> es[i].0 != k,
    ensures
        obj_set(es, k, v) =~= es.push((k, v)),
    decreases es.len(),
{
    if es.len() > 0 {
        lemma_obj_set_push(es.drop_first(), k, v);
        assert(seq![es[0]] + es.drop_first().push((k, v)) =~= es.push((k, v)));
    }
}

/// Reads the value at `path[i..]` under `node`.
fn get_at_node<'a>(node: &'a JsonValue, path: &[ObjectKey], i: usize) -> (r: Option<
    &'a JsonValue>)
    requires
        i <= path@.len(),
    ensures
        match r {
            Some(x) => get_at(node@, path_view(path@), i as int) == Some(x@),
            None => get_at(node@, path_view(path@), i as int) is None,
        },
    decreases path@.len() - i,
{
    if i == path.len() {
        return Some(node);
    }
    let seg = &path[i];
    match (seg, node) {
        (ObjectKey::Key(k), JsonValue::Object(es)) => {
            proof {
                lemma_obj_entries_view(es@);
                assert(path_view(path@)[i as int] == SegView::Key(k@));
                assert(node@ == JsonVal::Object(obj_entries_view(es@)));
            }
            match obj_find(es, k.as_str()) {
                Some(j) => {
                    proof {
                        assert forall|m: int| 0 <= m < j implies
                            obj_entries_view(es@)[m].0 != k@ by {
                            assert(obj_entries_view(es@)[m]
                                == (es@[m].0@, json_view(es@[m].1)));
                        }
                        lemma_obj_get_first_match(obj_entries_view(es@), k@, j as int);
                    }
                    get_at_node(&es[j].1, path, i + 1)
                },
                None => {
                    proof {
                        assert forall|m: int| 0 <= m < es@.len() implies
                            obj_entries_view(es@)[m].0 != k@ by {
                            assert(obj_entries_view(es@)[m]
                                == (es@[m].0@, json_view(es@[m].1)));
                        }
                        lemma_obj_get_none(obj_entries_view(es@), k@);
                    }
                    None
                },
            }
        },
        (ObjectKey::Index(ix), JsonValue::Array(vs)) => {
            proof {
                lemma_arr_view(vs@);
                assert(path_view(path@)[i as int] == SegView::Index(*ix as int));
                assert(node@ == JsonVal::Array(arr_view(vs@)));
            }
            if *ix < vs.len() {
                get_at_node(&vs[*ix], path, i + 1)
            } else {
                None
            }
        },
        _ => {
            proof {
                assert(path_view(path@)[i as int] == path@[i as int]@);
            }
            None
        },
    }
}

/// An equal copy of a path, for carrying it into an error value.
pub fn copy_path(path: &[ObjectKey]) -> (r: Vec<ObjectKey>)
    ensures
        path_view(r@) =~= path_view(path@),
{
    let mut out: Vec<ObjectKey> = Vec::new();
    let n = path.len();
    let mut i: usize = 0;
    while i < n
        invariant
            n == path@.len(),
            i <= n,
            out@.len() == i,
            forall|j: int| 0 <= j < i ==> out@[j]@ == path@[j]@,
        decreases n - i,
    {
        out.push(path[i].duplicate());
        i = i + 1;
    }
    out
}

/// The empty container a segment demands.
fn fresh_node(seg: &ObjectKey) -> (r: JsonValue)
    ensures
        r@ == fresh_for(seg@),
{
    match seg {
        ObjectKey::Key(_) => JsonValue::Object(Vec::new()),
        ObjectKey::Index(_) => JsonValue::Array(Vec::new()),
    }
}

/// Overwrite rule of the tree, on borrowed values.
fn may_overwrite_node(old_val: Option<&JsonValue>, x: &JsonValue) -> (r: bool)
    ensures
        r == may_overwrite(
            match old_val { Some(o) => Some(o@), None => None::<JsonVal> },
            x@,
        ),
{
    match old_val {
        Some(JsonValue::Object(_)) => matches!(x, JsonValue::Object(_)),
        Some(JsonValue::Array(_)) => matches!(x, JsonValue::Array(_)),
        _ => true,
    }
}

/// Mutable access to the value of one object entry.
fn entry_val_mut(es: &mut Vec<(String, JsonValue)>, j: usize) -> (r: &mut JsonValue)
    requires
        j < old(es)@.len(),
    ensures
        *r == old(es)@[j as int].1,
        final(es)@ == old(es)@.update(j as int, (old(es)@[j as int].0, *final(r))),
{
    let e = &mut es[j];
    &mut e.1
}

/// Would inserting `x` at `path[i..]` under `node` succeed?
fn can_insert(node: &JsonValue, path: &[ObjectKey], i: usize, x: &JsonValue) -> (r: bool)
    requires
        i < path@.len(),
    ensures
        r == (insert_at(node@, path_view(path@), i as int, x@) is Some),
    decreases path@.len() - i,
{
    let seg = &path[i];
    let last = i == path.len() - 1;
    match (seg, node) {
        (ObjectKey::Key(k), JsonValue::Object(es)) => {
            proof {
                lemma_obj_entries_view(es@);
                assert(path_view(path@)[i as int] == SegView::Key(k@));
                assert(node@ == JsonVal::Object(obj_entries_view(es@)));
            }
            let j = obj_find(es, k.as_str());
            proof {
                match j {
                    Some(jj) => {
                        assert forall|m: int| 0 <= m < jj implies
                            obj_entries_view(es@)[m].0 != k@ by {
                            assert(obj_entries_view(es@)[m]
                                == (es@[m].0@, json_view(es@[m].1)));
                        }
                        lemma_obj_get_first_match(obj_entries_view(es@), k@, jj as int);
                    },
                    None => {
                        assert forall|m: int| 0 <= m < es@.len() implies
                            obj_entries_view(es@)[m].0 != k@ by {
                            assert(obj_entries_view(es@)[m]
                                == (es@[m].0@, json_view(es@[m].1)));
                        }
                        lemma_obj_get_none(obj_entries_view(es@), k@);
                    },
                }
            }
            if last {
                match j {
                    Some(jj) => may_overwrite_node(Some(&es[jj].1), x),
                    None => may_overwrite_node(None, x),
                }
            } else {
                match j {
                    Some(jj) => {
                        let child_is_null = matches!(&es[jj].1, JsonValue::Null);
                        if child_is_null {
                            let fresh = fresh_node(&path[i + 1]);
                            can_insert(&fresh, path, i + 1, x)
                        } else {
                            can_insert(&es[jj].1, path, i + 1, x)
                        }
                    },
                    None => {
                        let fresh = fresh_node(&path[i + 1]);
                        can_insert(&fresh, path, i + 1, x)
                    },
                }
            }
        },
        (ObjectKey::Index(ix), JsonValue::Array(vs)) => {
            proof {
                lemma_arr_view(vs@);
                assert(path_view(path@)[i as int] == SegView::Index(*ix as int));
                assert(node@ == JsonVal::Array(arr_view(vs@)));
                assert(pad_nulls(arr_view(vs@), *ix + 1).len() >= *ix + 1);
                assert(pad_nulls(arr_view(vs@), *ix + 1)[*ix as int] == (
                    if *ix < vs@.len() { json_view(vs@[*ix as int]) } else { JsonVal::Null }
                ));
            }
            let slot_in_range = *ix < vs.len();
            if last {
                if slot_in_range {
                    may_overwrite_node(Some(&vs[*ix]), x)
                } else {
                    proof {
                        assert(may_overwrite(
                            Some(pad_nulls(arr_view(vs@), *ix + 1)[*ix as int]), x@));
                    }
                    true
                }
            } else {
                if slot_in_range && !matches!(&vs[*ix], JsonValue::Null) {
                    can_insert(&vs[*ix], path, i + 1, x)
                } else {
                    let fresh = fresh_node(&path[i + 1]);
                    can_insert(&fresh, path, i + 1, x)
                }
            }
        },
        _ => {
            proof {
                assert(path_view(path@)[i as int] == path@[i as int]@);
            }
            false
        },
    }
}

/// Inserts `x` at `path[i..]` under `node`; the caller has established
/// that the insertion is possible.
fn do_insert(node: &mut JsonValue, path: &[ObjectKey], i: usize, x: JsonValue)
    requires
        i < path@.len(),
        insert_at(old(node)@, path_view(path@), i as int, x@) is Some,
    ensures
        Some(final(node)@) == insert_at(old(node)@, path_view(path@), i as int, x@),
    decreases path@.len() - i,
{
    let ghost expected = insert_at(old(node)@, path_view(path@), i as int, x@).unwrap();
    let last = i == path.len() - 1;
    match node {
        JsonValue::Object(es) => {
            let seg = &path[i];
            match seg {
                ObjectKey::Key(k) => {
                    proof {
                        lemma_obj_entries_view(es@);
                        assert(path_view(path@)[i as int] == SegView::Key(k@));
                        assert(old(node)@ == JsonVal::Object(obj_entries_view(es@)));
                    }
                    let j = obj_find(es, k.as_str());
                    proof {
                        match j {
                            Some(jj) => {
                                assert forall|m: int| 0 <= m < jj implies
                                    obj_entries_view(es@)[m].0 != k@ by {
                                    assert(obj_entries_view(es@)[m]
                                        == (es@[m].0@, json_view(es@[m].1)));
                                }
                                lemma_obj_get_first_match(
                                    obj_entries_view(es@), k@, jj as int);
                            },
                            None => {
                                assert forall|m: int| 0 <= m < es@.len() implies
                                    obj_entries_view(es@)[m].0 != k@ by {
                                    assert(obj_entries_view(es@)[m]
                                        == (es@[m].0@, json_view(es@[m].1)));
                                }
                                lemma_obj_get_none(obj_entries_view(es@), k@);
                            },
                        }
                    }
                    let ghost es0 = es@;
                    let jj: usize = match j {
                        Some(jj) => jj,
                        None => {
                            let fresh = if last {
                                JsonValue::Null
                            } else {
                                fresh_node(&path[i + 1])
                            };
                            es.push((k.clone(), fresh));
                            es.len() - 1
                        },
                    };
                    if last {
                        let key_copy = es[jj].0.clone();
                        es.set(jj, (key_copy, x));
                        proof {
                            lemma_obj_entries_view(es@);
                            match j {
                                Some(_) => {
                                    lemma_obj_set_update(
                                        obj_entries_view(es0), k@, x@, jj as int);
                                },
                                None => {
                                    lemma_obj_set_push(obj_entries_view(es0), k@, x@);
                                },
                            }
                            assert(obj_entries_view(es@)
                                =~= obj_set(obj_entries_view(es0), k@, x@));
                            assert(final(node)@ == JsonVal::Object(obj_entries_view(es@)));
                        }
                    } else {
                        // A `Null` child slot becomes the container the next
                        // segment demands before descending into it.
                        if matches!(&es[jj].1, JsonValue::Null) {
                            let key_copy = es[jj].0.clone();
                            let fresh = fresh_node(&path[i + 1]);
                            es.set(jj, (key_copy, fresh));
                        }
                        let ghost es1 = es@;
                        let ghost child0 = json_view(es@[jj as int].1);
                        let child = entry_val_mut(es, jj);
                        do_insert(child, path, i + 1, x);
                        proof {
                            lemma_obj_entries_view(es@);
                            lemma_obj_entries_view(es1);
                            let c2 = insert_at(child0, path_view(path@), i as int + 1, x@)
                                .unwrap();
                            match j {
                                Some(_) => {
                                    lemma_obj_set_update(
                                        obj_entries_view(es0), k@, c2, jj as int);
                                },
                                None => {
                                    lemma_obj_set_push(obj_entries_view(es0), k@, c2);
                                },
                            }
                            assert(obj_entries_view(es@)
                                =~= obj_set(obj_entries_view(es0), k@, c2));
                            assert(final(node)@ == JsonVal::Object(obj_entries_view(es@)));
                        }
                    }
                },
                ObjectKey::Index(_) => {
                    proof {
                        assert(path_view(path@)[i as int] == path@[i as int]@);
                        assert(false);
                    }
                },
            }
        },
        JsonValue::Array(vs) => {
            let seg = &path[i];
            match seg {
                ObjectKey::Index(ix) => {
                    let ix = *ix;
                    proof {
                        lemma_arr_view(vs@);
                        assert(path_view(path@)[i as int] == SegView::Index(ix as int));
                        assert(old(node)@ == JsonVal::Array(arr_view(vs@)));
                    }
                    let ghost vs0 = vs@;
                    while vs.len() <= ix
                        invariant
                            vs@.len() <= vs0.len() || vs@.len() <= ix + 1,
                            vs@.len() >= vs0.len(),
                            vs@.subrange(0, vs0.len() as int) =~= vs0,
                            forall|m: int| vs0.len() <= m < vs@.len()
                                ==> vs@[m] is Null,
                        decreases ix + 1 - vs@.len(),
                    {
                        vs.push(JsonValue::Null);
                    }
                    proof {
                        lemma_arr_view(vs@);
                        lemma_arr_view(vs0);
                        assert(arr_view(vs@) =~= pad_nulls(arr_view(vs0), ix + 1));
                    }
                    let ghost padded = pad_nulls(arr_view(vs0), ix + 1);
                    if last {
                        vs.set(ix, x);
                        proof {
                            lemma_arr_view(vs@);
                            assert(arr_view(vs@) =~= padded.update(ix as int, x@));
                            assert(final(node)@ == JsonVal::Array(arr_view(vs@)));
                        }
                    } else {
                        if matches!(&vs[ix], JsonValue::Null) {
                            let fresh = fresh_node(&path[i + 1]);
                            vs.set(ix, fresh);
                        }
                        let ghost child0 = json_view(vs@[ix as int]);
                        let child = &mut vs[ix];
                        do_insert(child, path, i + 1, x);
                        proof {
                            lemma_arr_view(vs@);
                            let c2 = insert_at(child0, path_view(path@), i as int + 1, x@)
                                .unwrap();
                            assert(arr_view(vs@) =~= padded.update(ix as int, c2));
                            assert(final(node)@ == JsonVal::Array(arr_view(vs@)));
                        }
                    }
                },
                ObjectKey::Key(_) => {
                    proof {
                        assert(path_view(path@)[i as int] == path@[i as int]@);
                        assert(false);
                    }
                },
            }
        },
        _ => {
            proof {
                assert(path_view(path@)[i as int] == path@[i as int]@);
                assert(false);
            }
        },
    }
}

impl JsonValue {
    /// Reads the value at `path`. An empty path is rejected with
    /// `EmptyKey`; a path the tree does not have yields `FieldNotFound`
    /// carrying that path.
    pub fn get_val(&self, key: &[ObjectKey]) -> (r: Result<&JsonValue, ProcessingError>)
        ensures
            key@.len() == 0 ==> (r matches Err(e) && e.inner is EmptyKey),
            key@.len() > 0 ==> match r {
                Ok(x) => get_at(self@, path_view(key@), 0) == Some(x@),
                Err(e) => (e.inner matches ErrorKind::FieldNotFound { key: kk }
                    && path_view(kk@) == path_view(key@)
                    && get_at(self@, path_view(key@), 0) is None),
            },
    {
        if key.len() == 0 {
            return Err(ProcessingError::new(ErrorKind::EmptyKey));
        }
        match get_at_node(self, key, 0) {
            Some(x) => Ok(x),
            None => Err(ProcessingError::new(ErrorKind::FieldNotFound {
                key: copy_path(key),
            })),
        }
    }

    /// Inserts `value` at `path`. An empty path is rejected with
    /// `EmptyKey`; a `Null` root, a segment demand that the existing tree
    /// cannot meet, or a forbidden overwrite is rejected with
    /// `InvalidObjectTree`, and the tree is left unchanged.
    pub fn insert_val(&mut self, key: &[ObjectKey], value: JsonValue) -> (r: Result<
        (),
        ProcessingError,
    >)
        ensures
            key@.len() == 0 ==> (r matches Err(e) && e.inner is EmptyKey
                && final(self)@ == old(self)@),
            key@.len() > 0 && old(self)@ is Null ==> (r matches Err(e)
                && e.inner is InvalidObjectTree && final(self)@ == old(self)@),
            key@.len() > 0 && !(old(self)@ is Null) ==> match insert_at(
                old(self)@, path_view(key@), 0, value@,
            ) {
                Some(t) => r is Ok && final(self)@ == t,
                None => (r matches Err(e) && e.inner is InvalidObjectTree
                    && final(self)@ == old(self)@),
            },
    {
        if key.len() == 0 {
            return Err(ProcessingError::new(ErrorKind::EmptyKey));
        }
        if matches!(self, JsonValue::Null) {
            return Err(ProcessingError::new(ErrorKind::InvalidObjectTree {
                invalid_key: copy_path(key),
                reason: String::from_str("Root node is null."),
            }));
        }
        if can_insert(self, key, 0, &value) {
            do_insert(self, key, 0, value);
            Ok(())
        } else {
            Err(ProcessingError::new(ErrorKind::InvalidObjectTree {
                invalid_key: copy_path(key),
                reason: String::from_str("Node has incompatible type."),
            }))
        }
    }
}

/// The output document of one message: an optional routing key and a
/// root value that starts as `Null` and is shaped by the first insertion.
pub struct OutputMessage {
    pub key: Option<String>,
    pub value: JsonValue,
}

impl OutputMessage {
    /// The document root, as a spec value.
    pub open spec fn root(self) -> JsonVal {
        self.value@
    }

    /// A fresh message: no key, `Null` root.
    pub fn new() -> (r: OutputMessage)
        ensures
            r.key is None,
            r.root() is Null,
    {
        OutputMessage { key: None, value: JsonValue::Null }
    }

    /// Reads the value at `path` in the output document.
    pub fn get_val(&self, key: &[ObjectKey]) -> (r: Result<&JsonValue, ProcessingError>)
        ensures
            key@.len() == 0 ==> (r matches Err(e) && e.inner is EmptyKey),
            key@.len() > 0 ==> match r {
                Ok(x) => get_at(self.root(), path_view(key@), 0) == Some(x@),
                Err(e) => (e.inner matches ErrorKind::FieldNotFound { key: kk }
                    && path_view(kk@) == path_view(key@)
                    && get_at(self.root(), path_view(key@), 0) is None),
            },
    {
        if key.len() == 0 {
            return Err(ProcessingError::new(ErrorKind::EmptyKey));
        }
        match get_at_node(&self.value, key, 0) {
            Some(x) => Ok(x),
            None => Err(ProcessingError::new(ErrorKind::FieldNotFound {
                key: copy_path(key),
            })),
        }
    }

    /// Inserts `value` at `path`. A `Null` root first becomes the empty
    /// container the head segment demands; on failure nothing changes.
    pub fn insert_val(&mut self, key: &[ObjectKey], value: JsonValue) -> (r: Result<
        (),
        ProcessingError,
    >)
        ensures
            key@.len() == 0 ==> (r matches Err(e) && e.inner is EmptyKey
                && *final(self) == *old(self)),
            key@.len() > 0 ==> ({
                let root0 = if old(self).root() is Null {
                    fresh_for(key@[0]@)
                } else {
                    old(self).root()
                };
                match insert_at(root0, path_view(key@), 0, value@) {
                    Some(t) => r is Ok && final(self).root() == t
                        && final(self).key == old(self).key,
                    None => (r matches Err(e) && e.inner is InvalidObjectTree
                        && *final(self) == *old(self)),
                }
            }),
    {
        if key.len() == 0 {
            return Err(ProcessingError::new(ErrorKind::EmptyKey));
        }
        let root_is_null = matches!(&self.value, JsonValue::Null);
        if root_is_null {
            let fresh = fresh_node(&key[0]);
            if can_insert(&fresh, key, 0, &value) {
                self.value = fresh;
                do_insert(&mut self.value, key, 0, value);
                Ok(())
            } else {
                Err(ProcessingError::new(ErrorKind::InvalidObjectTree {
                    invalid_key: copy_path(key),
                    reason: String::from_str("Node has incompatible type."),
                }))
            }
        } else {
            if can_insert(&self.value, key, 0, &value) {
                do_insert(&mut self.value, key, 0, value);
                Ok(())
            } else {
                Err(ProcessingError::new(ErrorKind::InvalidObjectTree {
                    invalid_key: copy_path(key),
                    reason: String::from_str("Node has incompatible type."),
                }))
            }
        }
    }
}

impl Default for OutputMessage {
    fn default() -> (r: OutputMessage)
        ensures
            r.key is None,
            r.root() is Null,
    {
        OutputMessage::new()
    }
}

/// After setting key `k`, looking `k` up finds the new value.
proof fn lemma_obj_get_after_set(es: Seq<(Seq<char>, JsonVal)>, k: Seq<char>, v: JsonVal)
    ensures
        obj_get(obj_set(es, k, v), k) == Some(v),
    decreases es.len(),
{
    if es.len() == 0 {
    } else if es[0].0 == k {
        assert(obj_set(es, k, v)[0] == (es[0].0, v));
    } else {
        lemma_obj_get_after_set(es.drop_first(), k, v);
        assert((seq![es[0]] + obj_set(es.drop_first(), k, v)).drop_first()
            =~= obj_set(es.drop_first(), k, v));
    }
}

/// Law: a value just inserted at a path is what `get` returns for that
/// path. Holds for every tree, path and value for which the insertion
/// succeeds.
pub proof fn lemma_insert_then_get(v: JsonVal, path: Seq<SegView>, i: int, x: JsonVal)
    requires
        0 <= i < path.len(),
        insert_at(v, path, i, x) is Some,
    ensures
        get_at(insert_at(v, path, i, x).unwrap(), path, i) == Some(x),
    decreases path.len() - i,
{
    let t = insert_at(v, path, i, x).unwrap();
    match (path[i], v) {
        (SegView::Key(k), JsonVal::Object(es)) => {
            if i == path.len() - 1 {
                lemma_obj_get_after_set(es, k, x);
            } else {
                let child = if obj_get(es, k) is None
                    || obj_get(es, k) matches Some(JsonVal::Null) {
                    fresh_for(path[i + 1])
                } else {
                    obj_get(es, k).unwrap()
                };
                let c2 = insert_at(child, path, i + 1, x).unwrap();
                lemma_obj_get_after_set(es, k, c2);
                lemma_insert_then_get(child, path, i + 1, x);
            }
        },
        (SegView::Index(ix), JsonVal::Array(vs0)) => {
            let vs = pad_nulls(vs0, ix + 1);
            if i == path.len() - 1 {
                assert(vs.update(ix, x)[ix] == x);
            } else {
                let child = if vs[ix] is Null { fresh_for(path[i + 1]) } else { vs[ix] };
                let c2 = insert_at(child, path, i + 1, x).unwrap();
                assert(vs.update(ix, c2)[ix] == c2);
                lemma_insert_then_get(child, path, i + 1, x);
            }
        },
        _ => {},
    }
}

/// The JSON document encoded by a payload, if the payload is one; what
/// `parse_payload` returns. A name only: the same bytes always decode to
/// the same document.
pub uninterp spec fn json_document_of(payload: Seq<u8>) -> Option<JsonValue>;

/// Relies on `serde_json::Value`: moves each variant of a parsed value
/// into the tree type, arm by arm; a number keeps its decimal text.
#[verifier::external_body]
fn from_parsed(v: serde_json::Value) -> JsonValue {
    match v {
        serde_json::Value::Null => JsonValue::Null,
        serde_json::Value::Bool(b) => JsonValue::Bool(b),
        serde_json::Value::Number(n) => JsonValue::Number(n.to_string()),
        serde_json::Value::String(s) => JsonValue::Text(s),
        serde_json::Value::Array(a) => JsonValue::Array(
            a.into_iter().map(from_parsed).collect(),
        ),
        serde_json::Value::Object(m) => JsonValue::Object(
            m.into_iter().map(|(k, x)| (k, from_parsed(x))).collect(),
        ),
    }
}

/// Relies on `serde_json::from_slice`: parses the payload as one JSON
/// document; the result is a function of the bytes alone.
#[verifier::external_body]
fn parse_payload(payload: &[u8]) -> (r: Option<JsonValue>)
    ensures
        r == json_document_of(payload@),
{
    match serde_json::from_slice::<serde_json::Value>(payload) {
        Ok(v) => Some(from_parsed(v)),
        Err(_) => None,
    }
}

/// One transform step of a stream's pipeline: reads the parsed input
/// document and mutates the output document. Implementations are
/// supplied by the application that assembles the worker.
pub trait TransformStep {
    fn apply(&self, input: &JsonValue, output: &mut OutputMessage) -> Result<
        (),
        ProcessingError,
    >;
}

/// The produced form of one message: its routing key and the JSON text
/// of the output document.
pub struct SerializedOutputMessage {
    pub key: String,
    pub message: String,
}

/// The published text of an output document: its JSON text, except
/// that a root left `Null` by the pipeline is published as an empty
/// object.
pub open spec fn ser_published(root: JsonVal) -> Seq<char> {
    if root is Null {
        "{}"@
    } else {
        ser_val(root)
    }
}

/// `m` is the serialization of the output document `out` for a message
/// with consumer-assigned id `id`: the body is the document's published
/// JSON text, and the key falls back to `id` when no step set one.
pub open spec fn serialized_from(
    m: SerializedOutputMessage,
    out: OutputMessage,
    id: Seq<char>,
) -> bool {
    &&& m.message@ == ser_published(out.root())
    &&& m.key@ == match out.key {
        Some(k) => k@,
        None => id,
    }
}

/// `m` is a well-formed produced message for id `id`: the serialization
/// of some output document, with the key fallback applied.
pub open spec fn pipeline_output(m: SerializedOutputMessage, id: Seq<char>) -> bool {
    exists|out: OutputMessage| #[trigger] serialized_from(m, out, id)
}

/// Parses the payload, runs every step of the pipeline in order, and
/// serializes the output document. A step's failure never aborts the
/// steps after it; only an unparsable payload fails the whole message.
pub fn process_payload<S: TransformStep>(
    id: String,
    payload: &[u8],
    processors: &Vec<S>,
) -> (r: Result<SerializedOutputMessage, ProcessingError>)
    ensures
        json_document_of(payload@) is None ==> (r matches Err(e) && e.inner is OtherError),
        json_document_of(payload@) is Some ==> (r matches Ok(m)
            && pipeline_output(m, id@)),
{
    let source = match parse_payload(payload) {
        Some(v) => v,
        None => {
            return Err(ProcessingError::new(ErrorKind::OtherError {
                description: String::from_str("Payload is not a JSON document."),
            }));
        },
    };
    let mut message = OutputMessage::new();
    let n = processors.len();
    let mut i: usize = 0;
    while i < n
        invariant
            n == processors@.len(),
            i <= n,
        decreases n - i,
    {
        // A low-severity error means the step is skipped; any other error
        // is confined to this step as well, and the pipeline continues.
        let _step_outcome = processors[i].apply(&source, &mut message);
        i = i + 1;
    }
    let ghost out_doc = message;
    let body = if matches!(&message.value, JsonValue::Null) {
        let b = String::from_str("{}");
        proof {
            reveal_strlit("{}");
            assert(b@ =~= ser_published(out_doc.root()));
        }
        b
    } else {
        to_json_string(&message.value)
    };
    let key = match &message.key {
        Some(k) => k.clone(),
        None => id.clone(),
    };
    let out = SerializedOutputMessage { key, message: body };
    proof {
        assert(serialized_from(out, out_doc, id@));
        assert(pipeline_output(out, id@));
    }
    Ok(out)
}

} // verus!
