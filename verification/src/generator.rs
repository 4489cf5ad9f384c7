//! Build-time generation of transform-step functions from a template:
//! each stream entry names a generator kind and its options, and the
//! generator renders the Rust source of one step function.
use vstd::prelude::*;
use vstd::string::StrSliceExecFns;
use crate::strutil::{spec_parse_i64, spec_i64_string, parse_i64, i64_to_string, str_eq};

verus! {

/// Options of one configured processor, in insertion order.
#[derive(Debug)]
pub struct ProcessorConfig {
    pub entries: Vec<(String, String)>,
}

/// View of the options.
pub open spec fn cfg_view(entries: Seq<(String, String)>) -> Seq<(Seq<char>, Seq<char>)> {
    entries.map_values(|e: (String, String)| (e.0@, e.1@))
}

/// First value stored under `k`.
pub open spec fn cfg_get(entries: Seq<(Seq<char>, Seq<char>)>, k: Seq<char>) -> Option<
    Seq<char>,
>
    decreases entries.len(),
{
    if entries.len() == 0 {
        None
    } else if entries[0].0 == k {
        Some(entries[0].1)
    } else {
        cfg_get(entries.drop_first(), k)
    }
}

impl ProcessorConfig {
    /// No options.
    pub fn new() -> (r: ProcessorConfig)
        ensures
            cfg_view(r.entries@) == Seq::<(Seq<char>, Seq<char>)>::empty(),
    {
        let r = ProcessorConfig { entries: Vec::new() };
        proof {
            assert(cfg_view(r.entries@) =~= Seq::<(Seq<char>, Seq<char>)>::empty());
        }
        r
    }

    /// Adds one option.
    pub fn insert(&mut self, key: String, value: String)
        ensures
            cfg_view(final(self).entries@) == cfg_view(old(self).entries@).push((key@, value@)),
    {
        let ghost k = key@;
        let ghost v = value@;
        let ghost before = self.entries@;
        self.entries.push((key, value));
        proof {
            assert(cfg_view(self.entries@) =~= cfg_view(before).push((k, v)));
        }
    }

    /// Looks one option up.
    pub fn get(&self, key: &str) -> (r: Option<&String>)
        ensures
            match r {
                Some(v) => cfg_get(cfg_view(self.entries@), key@) == Some(v@),
                None => cfg_get(cfg_view(self.entries@), key@) is None,
            },
    {
        let n = self.entries.len();
        let mut i: usize = 0;
        while i < n
            invariant
                n == self.entries@.len(),
                i <= n,
                forall|j: int| 0 <= j < i ==> (#[trigger] self.entries@[j]).0@ != key@,
            decreases n - i,
        {
            if str_eq(self.entries[i].0.as_str(), key) {
                proof {
                    lemma_cfg_get_first(cfg_view(self.entries@), key@, i as int);
                }
                return Some(&self.entries[i].1);
            }
            i = i + 1;
        }
        proof {
            lemma_cfg_get_none(cfg_view(self.entries@), key@);
        }
        None
    }
}

proof fn lemma_cfg_get_first(entries: Seq<(Seq<char>, Seq<char>)>, k: Seq<char>, j: int)
    requires
        0 <= j < entries.len(),
        entries[j].0 == k,
        forall|i: int| 0 <= i < j ==> entries[i].0 != k,
    ensures
        cfg_get(entries, k) == Some(entries[j].1),
    decreases j,
{
    if j > 0 {
        lemma_cfg_get_first(entries.drop_first(), k, j - 1);
    }
}

proof fn lemma_cfg_get_none(entries: Seq<(Seq<char>, Seq<char>)>, k: Seq<char>)
    requires
        forall|i: int| 0 <= i < entries.len() ==> entries[i].0 != k,
    ensures
        cfg_get(entries, k) is None,
    decreases entries.len(),
{
    if entries.len() > 0 {
        lemma_cfg_get_none(entries.drop_first(), k);
    }
}

/// One generated step: the name of its function and its source text.
#[derive(Debug, PartialEq)]
pub struct Processor {
    pub function_name: String,
    pub function_body: String,
}

/// Failure of the generation of one step function.
#[derive(Debug, PartialEq)]
pub enum ProcessorGenerationError {
    /// The template lacked an option the generator needs.
    RequiredConfigNotFound {
        function_name: String,
        field_name: String,
        description: Option<String>,
    },
    /// The template named a generator that does not exist.
    GeneratorUnknown { name: String },
    /// A generator run by the host failed; its explanation.
    GeneratorError { description: String },
}

/// A string that may stand inside a Rust string literal: backslash,
/// quote and newline are escaped.
pub open spec fn esc_field_char(c: char) -> Seq<char> {
    if c == '\\' {
        seq!['\\', '\\']
    } else if c == '"' {
        seq!['\\', '"']
    } else if c == '\n' {
        seq!['\\', 'n']
    } else {
        seq![c]
    }
}

/// The escaped form of a whole field name.
pub open spec fn spec_escape_field(s: Seq<char>) -> Seq<char>
    decreases s.len(),
{
    if s.len() == 0 {
        Seq::empty()
    } else {
        esc_field_char(s[0]) + spec_escape_field(s.drop_first())
    }
}

proof fn lemma_escape_field_push(s: Seq<char>, c: char)
    ensures
        spec_escape_field(s.push(c)) == spec_escape_field(s) + esc_field_char(c),
    decreases s.len(),
{
    let w = s.push(c);
    if s.len() == 0 {
        assert(w[0] == c);
        assert(w.drop_first() =~= Seq::<char>::empty());
        assert(spec_escape_field(w.drop_first()) =~= Seq::<char>::empty());
        assert(spec_escape_field(w) =~= esc_field_char(c));
        assert(spec_escape_field(s) + esc_field_char(c) =~= esc_field_char(c));
    } else {
        assert(w[0] == s[0]);
        lemma_escape_field_push(s.drop_first(), c);
        assert(w.drop_first() =~= s.drop_first().push(c));
        assert(spec_escape_field(w) =~= spec_escape_field(s) + esc_field_char(c));
    }
}

/// Escapes a field name for inclusion in generated source.
pub fn escape_field(s: &str) -> (r: String)
    ensures
        r@ == spec_escape_field(s@),
{
    let n = s.unicode_len();
    let mut out = String::new();
    let mut i: usize = 0;
    while i < n
        invariant
            n == s@.len(),
            i <= n,
            out@ == spec_escape_field(s@.subrange(0, i as int)),
        decreases n - i,
    {
        let ghost prefix = s@.subrange(0, i as int);
        let c = s.get_char(i);
        if c == '\\' {
            out.append("\\\\");
            proof { reveal_strlit("\\\\"); }
        } else if c == '"' {
            out.append("\\\"");
            proof { reveal_strlit("\\\""); }
        } else if c == '\n' {
            out.append("\\n");
            proof { reveal_strlit("\\n"); }
        } else {
            out.append(s.substring_char(i, i + 1));
            proof {
                assert(s@.subrange(i as int, i as int + 1) =~= seq![s@[i as int]]);
            }
        }
        proof {
            assert(s@.subrange(0, i as int + 1) =~= prefix.push(s@[i as int]));
            lemma_escape_field_push(prefix, s@[i as int]);
            assert(out@ =~= spec_escape_field(s@.subrange(0, i as int + 1)));
        }
        i = i + 1;
    }
    proof {
        assert(s@.subrange(0, n as int) =~= s@);
    }
    out
}

/// A name that can stand as a JSON field in generated source.
pub trait JsonFieldName {
    /// The characters of the name.
    spec fn name_chars(&self) -> Seq<char>;

    /// The name with backslash, quote and newline escaped.
    fn escape_for_json(&self) -> (r: String)
        ensures
            r@ == spec_escape_field(self.name_chars()),
    ;
}

impl JsonFieldName for String {
    open spec fn name_chars(&self) -> Seq<char> {
        self@
    }

    fn escape_for_json(&self) -> (r: String)
        ensures
            r@ == spec_escape_field(self@),
    {
        escape_field(self.as_str())
    }
}

impl JsonFieldName for str {
    open spec fn name_chars(&self) -> Seq<char> {
        self@
    }

    fn escape_for_json(&self) -> (r: String)
        ensures
            r@ == spec_escape_field(self@),
    {
        escape_field(self)
    }
}

/// A JSONPath separator: `.`, `[` or `]`.
pub open spec fn is_path_sep(c: char) -> bool {
    c == '.' || c == '[' || c == ']'
}

/// The pieces of `s` between separators, in order, empty pieces
/// included; what splitting on the separator class yields.
pub open spec fn spec_split_segments(s: Seq<char>) -> Seq<Seq<char>>
    decreases s.len(),
{
    if s.len() == 0 {
        seq![Seq::<char>::empty()]
    } else {
        let r = spec_split_segments(s.drop_last());
        if is_path_sep(s.last()) {
            r.push(Seq::empty())
        } else {
            r.update(r.len() - 1, r.last().push(s.last()))
        }
    }
}

/// The split always yields at least one piece.
proof fn lemma_split_segments_len(s: Seq<char>)
    ensures
        spec_split_segments(s).len() >= 1,
    decreases s.len(),
{
    if s.len() > 0 {
        lemma_split_segments_len(s.drop_last());
    }
}

/// Relies on `regex::Regex::split` with a class of the three JSONPath
/// separators: it yields the substrings between occurrences of `.`,
/// `[` and `]`, in order, empty ones included.
#[verifier::external_body]
fn split_path_segments(s: &str) -> (r: Vec<String>)
    ensures
        r.deep_view() == spec_split_segments(s@),
{
    regex::Regex::new(r"[.\[\]]")
        .unwrap()
        .split(s)
        .map(|p| p.to_string())
        .collect()
}

/// The rendering of one non-empty path piece: a numeric piece is an
/// index accessor, any other piece a key accessor.
pub open spec fn spec_render_piece(p: Seq<char>) -> Seq<char> {
    match spec_parse_i64(p) {
        Some(n) => "Index("@ + spec_i64_string(n as int) + ")"@,
        None => "Key(\""@ + spec_escape_field(p) + "\".to_string())"@,
    }
}

/// The rendered pieces joined with `, `, empty pieces skipped.
pub open spec fn spec_render_list(ps: Seq<Seq<char>>) -> Seq<char>
    decreases ps.len(),
{
    if ps.len() == 0 {
        Seq::empty()
    } else {
        let rest = spec_render_list(ps.drop_last());
        if ps.last().len() == 0 {
            rest
        } else if rest.len() == 0 {
            spec_render_piece(ps.last())
        } else {
            rest + ", "@ + spec_render_piece(ps.last())
        }
    }
}

/// The object-tree accessor for a JSONPath: a path that does not start
/// with `$` is a single key; otherwise every piece after the leading
/// `$` becomes an index or key accessor.
pub open spec fn spec_json_path_key(s: Seq<char>) -> Seq<char> {
    if !(s.len() > 0 && s[0] == '$') {
        "&[Key(\""@ + spec_escape_field(s) + "\".to_string())]"@
    } else {
        "&["@ + spec_render_list(spec_split_segments(s).drop_first()) + "]"@
    }
}

/// A rendered piece is never empty.
proof fn lemma_render_piece_nonempty(p: Seq<char>)
    ensures
        spec_render_piece(p).len() > 0,
{
    reveal_strlit("Index(");
    reveal_strlit("Key(\"");
    assert("Index("@.len() == 6);
    assert("Key(\""@.len() == 5);
}

/// Renders one piece.
fn render_piece(p: &str) -> (r: String)
    ensures
        r@ == spec_render_piece(p@),
{
    match parse_i64(p) {
        Some(n) => {
            let mut out = String::from_str("Index(");
            let num = i64_to_string(n);
            out.append(num.as_str());
            out.append(")");
            proof {
                assert(out@ =~= spec_render_piece(p@));
            }
            out
        },
        None => {
            let mut out = String::from_str("Key(\"");
            let body = escape_field(p);
            out.append(body.as_str());
            out.append("\".to_string())");
            proof {
                assert(out@ =~= spec_render_piece(p@));
            }
            out
        },
    }
}

/// Turns a JSONPath into the object-tree accessor used by generated
/// step functions: `$[0].phoneNumbers[1].type` becomes
/// `&[Index(0), Key("phoneNumbers".to_string()), Index(1), Key("type".to_string())]`.
#[verifier::loop_isolation(false)]
pub fn json_path_to_object_key(jsonpath: &str) -> (r: String)
    ensures
        r@ == spec_json_path_key(jsonpath@),
{
    let n = jsonpath.unicode_len();
    if n == 0 || jsonpath.get_char(0) != '$' {
        let mut out = String::from_str("&[Key(\"");
        let body = escape_field(jsonpath);
        out.append(body.as_str());
        out.append("\".to_string())]");
        proof {
            assert(out@ =~= spec_json_path_key(jsonpath@));
        }
        return out;
    }
    let pieces = split_path_segments(jsonpath);
    let m = pieces.len();
    proof {
        lemma_split_segments_len(jsonpath@);
        assert(pieces.deep_view().len() == m);
    }
    let mut body = String::new();
    proof {
        assert(pieces.deep_view().subrange(1, 1) =~= Seq::<Seq<char>>::empty());
        assert(spec_render_list(Seq::<Seq<char>>::empty()) =~= Seq::<char>::empty());
    }
    let mut i: usize = 1;
    while i < m
        invariant
            1 <= i <= m,
            m == pieces.deep_view().len(),
            body@ == spec_render_list(pieces.deep_view().subrange(1, i as int)),
        decreases m - i,
    {
        proof {
            assert(pieces.deep_view().subrange(1, i as int + 1).drop_last()
                =~= pieces.deep_view().subrange(1, i as int));
            assert(pieces.deep_view().subrange(1, i as int + 1).last()
                == pieces.deep_view()[i as int]);
            assert(pieces.deep_view()[i as int] == pieces@[i as int]@);
        }
        let piece = &pieces[i];
        if piece.unicode_len() > 0 {
            proof {
                lemma_render_piece_nonempty(piece@);
            }
            if body.unicode_len() > 0 {
                body.append(", ");
                proof {
                    reveal_strlit(", ");
                }
            }
            let rendered = render_piece(piece.as_str());
            body.append(rendered.as_str());
        }
        proof {
            assert(body@ =~= spec_render_list(pieces.deep_view().subrange(1, i as int + 1)));
        }
        i = i + 1;
    }
    let mut out = String::from_str("&[");
    out.append(body.as_str());
    out.append("]");
    proof {
        assert(pieces.deep_view().subrange(1, m as int)
            =~= pieces.deep_view().drop_first());
        assert(out@ =~= spec_json_path_key(jsonpath@));
    }
    out
}

/// One stream of a worker template: source and target topic, and the
/// option maps of its processors in order.
#[derive(Debug)]
pub struct Stream {
    pub input_topic: String,
    pub output_topic: String,
    pub processors: Vec<ProcessorConfig>,
}

/// The generated name of one step function:
/// `input_output_index_kind`.
pub open spec fn spec_function_name(
    input_topic: Seq<char>,
    output_topic: Seq<char>,
    index: int,
    kind: Seq<char>,
) -> Seq<char> {
    input_topic + seq!['_'] + output_topic + seq!['_'] + crate::strutil::spec_u64_string(index)
        + seq!['_'] + kind
}

/// Builds the name of one step function.
pub fn generate_function_name(stream: &Stream, index: usize, kind: &str) -> (r: String)
    ensures
        r@ == spec_function_name(stream.input_topic@, stream.output_topic@, index as int,
            kind@),
{
    let mut out = stream.input_topic.clone();
    out.append("_");
    out.append(stream.output_topic.as_str());
    out.append("_");
    let ix = crate::strutil::u64_to_string(index as u64);
    out.append(ix.as_str());
    out.append("_");
    out.append(kind);
    proof {
        reveal_strlit("_");
        assert(out@ =~= spec_function_name(stream.input_topic@, stream.output_topic@,
            index as int, kind@));
    }
    out
}

/// The source of a generated static-field step.
pub open spec fn spec_static_field_code(
    name: Seq<char>,
    target: Seq<char>,
    value_esc: Seq<char>,
) -> Seq<char> {
    "\nfn "@ + name
        + "(_input: &Value, message: &mut OutputMessage) -> Result<(), ProcessingError> {\n    message.insert_val("@
        + target + ", Value::String(\""@ + value_esc
        + "\".to_string()))?;\n    Ok(())\n}\n"@
}

/// The source of a generated copy-field step.
pub open spec fn spec_copy_field_code(
    name: Seq<char>,
    source: Seq<char>,
    raw_source_esc: Seq<char>,
    target: Seq<char>,
) -> Seq<char> {
    "\nfn "@ + name
        + "(input: &Value, message: &mut OutputMessage) -> ProcessingResult<()> {\n    if let Some(value) = input.get_val("@
        + source
        + ")?\n        .and_then(|v| v.as_str())\n        .map(|v| v.to_string()) {\n\n        message.insert_val("@
        + target + ", Value::String(value))?;\n    } else {\n        debug!(\"Field ["@
        + raw_source_esc
        + "] is not present - skipping field copy\");\n    }\n    Ok(())\n}\n"@
}

/// Generates a static-field step: it puts the configured `value` under
/// the JSONPath `field` of every output document. Both options are
/// required.
pub fn static_field(function_name: &str, config: &ProcessorConfig) -> (r: Result<
    String,
    ProcessorGenerationError,
>)
    ensures
        ({
            let cfg = cfg_view(config.entries@);
            match r {
                Ok(code) => cfg_get(cfg, "field"@) matches Some(f)
                    && cfg_get(cfg, "value"@) matches Some(v)
                    && code@ == spec_static_field_code(function_name@, spec_json_path_key(f),
                        spec_escape_field(v)),
                Err(e) => (cfg_get(cfg, "field"@) is None || cfg_get(cfg, "value"@) is None)
                    && (e matches ProcessorGenerationError::RequiredConfigNotFound {
                        function_name: fname, field_name: fld, description: d }
                        && fname@ == function_name@ && d is None
                        && fld@ == (if cfg_get(cfg, "field"@) is None { "field"@ } else {
                            "value"@ })),
            }
        }),
{
    let field = match config.get("field") {
        Some(f) => f,
        None => {
            return Err(ProcessorGenerationError::RequiredConfigNotFound {
                function_name: String::from_str(function_name),
                field_name: String::from_str("field"),
                description: None,
            });
        },
    };
    let target = json_path_to_object_key(field.as_str());
    let value = match config.get("value") {
        Some(v) => v,
        None => {
            return Err(ProcessorGenerationError::RequiredConfigNotFound {
                function_name: String::from_str(function_name),
                field_name: String::from_str("value"),
                description: None,
            });
        },
    };
    let value_esc = escape_field(value.as_str());
    let mut out = String::from_str("\nfn ");
    out.append(function_name);
    out.append(
        "(_input: &Value, message: &mut OutputMessage) -> Result<(), ProcessingError> {\n    message.insert_val(",
    );
    out.append(target.as_str());
    out.append(", Value::String(\"");
    out.append(value_esc.as_str());
    out.append("\".to_string()))?;\n    Ok(())\n}\n");
    proof {
        assert(out@ =~= spec_static_field_code(function_name@,
            spec_json_path_key(cfg_get(cfg_view(config.entries@), "field"@).unwrap()),
            spec_escape_field(cfg_get(cfg_view(config.entries@), "value"@).unwrap())));
    }
    Ok(out)
}

/// Generates a copy-field step: it copies the string at the JSONPath
/// `source_field` of the input to the JSONPath `target_field` of the
/// output, skipping the copy when the source is absent. Both options
/// are required.
pub fn copy_field(function_name: &str, config: &ProcessorConfig) -> (r: Result<
    String,
    ProcessorGenerationError,
>)
    ensures
        ({
            let cfg = cfg_view(config.entries@);
            match r {
                Ok(code) => cfg_get(cfg, "source_field"@) matches Some(s)
                    && cfg_get(cfg, "target_field"@) matches Some(t)
                    && code@ == spec_copy_field_code(function_name@, spec_json_path_key(s),
                        spec_escape_field(s), spec_json_path_key(t)),
                Err(e) => (cfg_get(cfg, "source_field"@) is None
                    || cfg_get(cfg, "target_field"@) is None)
                    && (e matches ProcessorGenerationError::RequiredConfigNotFound {
                        function_name: fname, field_name: fld, description: d }
                        && fname@ == function_name@ && d is None
                        && fld@ == (if cfg_get(cfg, "source_field"@) is None {
                            "source_field"@ } else { "target_field"@ })),
            }
        }),
{
    let raw_source = match config.get("source_field") {
        Some(f) => f,
        None => {
            return Err(ProcessorGenerationError::RequiredConfigNotFound {
                function_name: String::from_str(function_name),
                field_name: String::from_str("source_field"),
                description: None,
            });
        },
    };
    let source = json_path_to_object_key(raw_source.as_str());
    let raw_source_esc = escape_field(raw_source.as_str());
    let raw_target = match config.get("target_field") {
        Some(f) => f,
        None => {
            return Err(ProcessorGenerationError::RequiredConfigNotFound {
                function_name: String::from_str(function_name),
                field_name: String::from_str("target_field"),
                description: None,
            });
        },
    };
    let target = json_path_to_object_key(raw_target.as_str());
    let mut out = String::from_str("\nfn ");
    out.append(function_name);
    out.append(
        "(input: &Value, message: &mut OutputMessage) -> ProcessingResult<()> {\n    if let Some(value) = input.get_val(",
    );
    out.append(source.as_str());
    out.append(
        ")?\n        .and_then(|v| v.as_str())\n        .map(|v| v.to_string()) {\n\n        message.insert_val(",
    );
    out.append(target.as_str());
    out.append(", Value::String(value))?;\n    } else {\n        debug!(\"Field [");
    out.append(raw_source_esc.as_str());
    out.append("] is not present - skipping field copy\");\n    }\n    Ok(())\n}\n");
    proof {
        assert(out@ =~= spec_copy_field_code(function_name@,
            spec_json_path_key(cfg_get(cfg_view(config.entries@), "source_field"@).unwrap()),
            spec_escape_field(cfg_get(cfg_view(config.entries@), "source_field"@).unwrap()),
            spec_json_path_key(cfg_get(cfg_view(config.entries@), "target_field"@).unwrap())));
    }
    Ok(out)
}

/// The available generator kinds.
#[derive(PartialEq, Eq, Structural, Clone, Copy, Debug)]
pub enum GeneratorKind {
    StaticField,
    CopyField,
}

/// The dictionary of available generators, by name.
pub struct GeneratorSet {
    pub entries: Vec<(String, GeneratorKind)>,
}

/// View of a generator dictionary.
pub open spec fn gens_view(entries: Seq<(String, GeneratorKind)>) -> Seq<(
    Seq<char>,
    GeneratorKind,
)> {
    entries.map_values(|e: (String, GeneratorKind)| (e.0@, e.1))
}

/// First generator registered under `name`.
pub open spec fn gen_lookup(entries: Seq<(Seq<char>, GeneratorKind)>, name: Seq<char>)
    -> Option<GeneratorKind>
    decreases entries.len(),
{
    if entries.len() == 0 {
        None
    } else if entries[0].0 == name {
        Some(entries[0].1)
    } else {
        gen_lookup(entries.drop_first(), name)
    }
}

impl GeneratorSet {
    /// Looks a generator up by name.
    pub fn get(&self, name: &str) -> (r: Option<GeneratorKind>)
        ensures
            r == gen_lookup(gens_view(self.entries@), name@),
    {
        let n = self.entries.len();
        let mut i: usize = 0;
        while i < n
            invariant
                n == self.entries@.len(),
                i <= n,
                forall|j: int| 0 <= j < i ==> (#[trigger] self.entries@[j]).0@ != name@,
            decreases n - i,
        {
            if str_eq(self.entries[i].0.as_str(), name) {
                proof {
                    lemma_gen_lookup_first(gens_view(self.entries@), name@, i as int);
                }
                return Some(self.entries[i].1);
            }
            i = i + 1;
        }
        proof {
            lemma_gen_lookup_none(gens_view(self.entries@), name@);
        }
        None
    }
}

proof fn lemma_gen_lookup_first(entries: Seq<(Seq<char>, GeneratorKind)>, k: Seq<char>, j: int)
    requires
        0 <= j < entries.len(),
        entries[j].0 == k,
        forall|i: int| 0 <= i < j ==> entries[i].0 != k,
    ensures
        gen_lookup(entries, k) == Some(entries[j].1),
    decreases j,
{
    if j > 0 {
        lemma_gen_lookup_first(entries.drop_first(), k, j - 1);
    }
}

proof fn lemma_gen_lookup_none(entries: Seq<(Seq<char>, GeneratorKind)>, k: Seq<char>)
    requires
        forall|i: int| 0 <= i < entries.len() ==> entries[i].0 != k,
    ensures
        gen_lookup(entries, k) is None,
    decreases entries.len(),
{
    if entries.len() > 0 {
        lemma_gen_lookup_none(entries.drop_first(), k);
    }
}

/// The dictionary of the built-in generators: `static_field` and
/// `copy_field`.
pub fn create_processor_generators() -> (r: GeneratorSet)
    ensures
        gens_view(r.entries@) == seq![
            ("static_field"@, GeneratorKind::StaticField),
            ("copy_field"@, GeneratorKind::CopyField),
        ],
{
    let mut entries: Vec<(String, GeneratorKind)> = Vec::new();
    entries.push((String::from_str("static_field"), GeneratorKind::StaticField));
    entries.push((String::from_str("copy_field"), GeneratorKind::CopyField));
    let r = GeneratorSet { entries };
    proof {
        assert(gens_view(r.entries@) =~= seq![
            ("static_field"@, GeneratorKind::StaticField),
            ("copy_field"@, GeneratorKind::CopyField),
        ]);
    }
    r
}

/// The code one generator kind produces for one step, if its options
/// are all present.
pub open spec fn spec_processor_code(
    kind: GeneratorKind,
    name: Seq<char>,
    cfg: Seq<(Seq<char>, Seq<char>)>,
) -> Option<Seq<char>> {
    match kind {
        GeneratorKind::StaticField => match (cfg_get(cfg, "field"@), cfg_get(cfg, "value"@)) {
            (Some(f), Some(v)) => Some(spec_static_field_code(name, spec_json_path_key(f),
                spec_escape_field(v))),
            _ => None,
        },
        GeneratorKind::CopyField => match (cfg_get(cfg, "source_field"@),
            cfg_get(cfg, "target_field"@)) {
            (Some(s), Some(t)) => Some(spec_copy_field_code(name, spec_json_path_key(s),
                spec_escape_field(s), spec_json_path_key(t))),
            _ => None,
        },
    }
}

/// Generation succeeds for the step at `i` of the stream: it names a
/// known generator kind and carries that kind's options.
pub open spec fn spec_step_generates(
    gens: Seq<(Seq<char>, GeneratorKind)>,
    input_topic: Seq<char>,
    output_topic: Seq<char>,
    cfgs: Seq<Seq<(Seq<char>, Seq<char>)>>,
    i: int,
) -> bool {
    match cfg_get(cfgs[i], "kind"@) {
        Some(kind_name) => match gen_lookup(gens, kind_name) {
            Some(kind) => spec_processor_code(kind,
                spec_function_name(input_topic, output_topic, i, kind_name), cfgs[i])
                is Some,
            None => false,
        },
        None => false,
    }
}

/// View of the option maps of a stream's processors.
pub open spec fn stream_cfgs(processors: Seq<ProcessorConfig>) -> Seq<
    Seq<(Seq<char>, Seq<char>)>,
> {
    processors.map_values(|c: ProcessorConfig| cfg_view(c.entries@))
}

/// Generates the step functions of one stream, in order. Succeeds if
/// and only if every step names a known generator kind and carries its
/// required options; each generated function gets the stream- and
/// index-derived name and the kind's rendered source.
#[verifier::loop_isolation(false)]
pub fn generate_processors(stream: &Stream, generators: &GeneratorSet) -> (r: Result<
    Vec<Processor>,
    ProcessorGenerationError,
>)
    ensures
        ({
            let gens = gens_view(generators.entries@);
            let cfgs = stream_cfgs(stream.processors@);
            match r {
                Ok(v) => {
                    &&& v@.len() == cfgs.len()
                    &&& forall|i: int| 0 <= i < cfgs.len()
                        ==> spec_step_generates(gens, stream.input_topic@,
                            stream.output_topic@, cfgs, i)
                    &&& forall|i: int| 0 <= i < cfgs.len()
                        ==> ((#[trigger] v@[i]).function_name@ == spec_function_name(
                                stream.input_topic@, stream.output_topic@, i,
                                cfg_get(cfgs[i], "kind"@).unwrap())
                            && Some(v@[i].function_body@) == spec_processor_code(
                                gen_lookup(gens, cfg_get(cfgs[i], "kind"@).unwrap()).unwrap(),
                                v@[i].function_name@, cfgs[i]))
                },
                Err(_) => exists|i: int| 0 <= i < cfgs.len()
                    && !spec_step_generates(gens, stream.input_topic@, stream.output_topic@,
                        cfgs, i),
            }
        }),
{
    let ghost gens = gens_view(generators.entries@);
    let ghost cfgs = stream_cfgs(stream.processors@);
    let mut out: Vec<Processor> = Vec::new();
    let n = stream.processors.len();
    let mut i: usize = 0;
    while i < n
        invariant
            n == stream.processors@.len(),
            cfgs.len() == n,
            i <= n,
            out@.len() == i,
            forall|j: int| 0 <= j < n ==> #[trigger] cfgs[j]
                == cfg_view(stream.processors@[j].entries@),
            forall|j: int| 0 <= j < i
                ==> spec_step_generates(gens, stream.input_topic@, stream.output_topic@,
                    cfgs, j),
            forall|j: int| 0 <= j < i
                ==> ((#[trigger] out@[j]).function_name@ == spec_function_name(
                        stream.input_topic@, stream.output_topic@, j,
                        cfg_get(cfgs[j], "kind"@).unwrap())
                    && Some(out@[j].function_body@) == spec_processor_code(
                        gen_lookup(gens, cfg_get(cfgs[j], "kind"@).unwrap()).unwrap(),
                        out@[j].function_name@, cfgs[j])),
        decreases n - i,
    {
        let config = &stream.processors[i];
        let kind_name = match config.get("kind") {
            Some(k) => k.clone(),
            None => {
                proof {
                    assert(cfg_get(cfgs[i as int], "kind"@) is None);
                    assert(!spec_step_generates(gens, stream.input_topic@,
                        stream.output_topic@, cfgs, i as int));
                }
                return Err(ProcessorGenerationError::RequiredConfigNotFound {
                    function_name: generate_function_name(stream, i, "UNKNOWN"),
                    field_name: String::from_str("kind"),
                    description: None,
                });
            },
        };
        let kind = match generators.get(kind_name.as_str()) {
            Some(k) => k,
            None => {
                proof {
                    assert(cfg_get(cfgs[i as int], "kind"@) == Some(kind_name@));
                    assert(gen_lookup(gens, kind_name@) is None);
                    assert(!spec_step_generates(gens, stream.input_topic@,
                        stream.output_topic@, cfgs, i as int));
                }
                return Err(ProcessorGenerationError::GeneratorUnknown { name: kind_name });
            },
        };
        let function_name = generate_function_name(stream, i, kind_name.as_str());
        let body = match kind {
            GeneratorKind::StaticField => static_field(function_name.as_str(), config),
            GeneratorKind::CopyField => copy_field(function_name.as_str(), config),
        };
        match body {
            Ok(code) => {
                out.push(Processor { function_name, function_body: code });
            },
            Err(e) => {
                proof {
                    assert(cfg_get(cfgs[i as int], "kind"@) == Some(kind_name@));
                    assert(gen_lookup(gens, kind_name@) == Some(kind));
                    assert(spec_processor_code(kind, function_name@, cfgs[i as int]) is None);
                    assert(!spec_step_generates(gens, stream.input_topic@,
                        stream.output_topic@, cfgs, i as int));
                }
                return Err(e);
            },
        }
        i = i + 1;
    }
    Ok(out)
}

} // verus!
