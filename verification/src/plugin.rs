//! The generator-plugin protocol: a plugin is started with the function
//! name and its options as alternating arguments, and answers on its
//! standard output with an `OK` line followed by the generated source,
//! or an `ERR` line followed by an explanation. This module holds both
//! ends: parsing the arguments, rendering the answer, and reading a
//! child's answer back. The process plumbing itself stays outside the
//! library.
use vstd::prelude::*;
use vstd::string::StrSliceExecFns;
use crate::generator::{ProcessorConfig, ProcessorGenerationError, cfg_view, cfg_get,
    spec_json_path_key, json_path_to_object_key};
use crate::strutil::{spec_starts_with, str_starts_with};
pub use crate::generator::JsonFieldName;

verus! {

/// What a plugin is asked to generate: the function name and the step's
/// options.
#[derive(Debug)]
pub struct ProcessorParams {
    pub function_name: String,
    pub config: ProcessorConfig,
}

/// Failure of a plugin run.
#[derive(Debug, PartialEq)]
pub enum GeneratorError {
    /// The argument list had the wrong shape.
    InvalidGeneratorArguments { args: Vec<String>, description: String },
    /// A required option was missing.
    RequiredConfigNotFound {
        function_name: String,
        field_name: String,
        description: Option<String>,
    },
    /// Any other failure, carried as its description.
    OtherError { description: String },
}

impl GeneratorError {
    /// Wraps an external failure's description.
    pub fn new_from(description: String) -> (r: GeneratorError)
        ensures
            r matches GeneratorError::OtherError { description: d } && d@ == description@,
    {
        GeneratorError::OtherError { description }
    }
}

/// The option pairs among the arguments before index `i`: argument 2
/// with 3, 4 with 5, and so on.
pub open spec fn spec_param_pairs(vs: Seq<Seq<char>>, i: int) -> Seq<(Seq<char>, Seq<char>)>
    decreases i,
{
    if i <= 3 {
        Seq::empty()
    } else {
        spec_param_pairs(vs, i - 2).push((vs[i - 2], vs[i - 1]))
    }
}

/// Parses a plugin's argument list: the program name, the function
/// name, then alternating option keys and values. An empty list or an
/// odd number of arguments is rejected.
pub fn read_params(args: Vec<String>) -> (r: Result<ProcessorParams, GeneratorError>)
    ensures
        ({
            let vs = args.deep_view();
            match r {
                Ok(p) => vs.len() >= 2 && vs.len() % 2 == 0 && p.function_name@ == vs[1]
                    && cfg_view(p.config.entries@) == spec_param_pairs(vs, vs.len() as int),
                Err(e) => (vs.len() == 0 || vs.len() % 2 == 1)
                    && (e matches GeneratorError::InvalidGeneratorArguments {
                        args: ea, description: _ } && ea.deep_view() == vs),
            }
        }),
{
    let n = args.len();
    proof {
        assert(args.deep_view().len() == n);
        assert(forall|j: int| 0 <= j < n ==> #[trigger] args.deep_view()[j] == args@[j]@);
    }
    if n == 0 {
        return Err(GeneratorError::InvalidGeneratorArguments {
            args,
            description: String::from_str(
                "No processor generator arguments specified. Specify at least 1 argument (function_name).",
            ),
        });
    }
    if n % 2 == 1 {
        return Err(GeneratorError::InvalidGeneratorArguments {
            args,
            description: String::from_str(
                "Processor arguments are invalid. Cannot construct the config map (wrong number of arguments).",
            ),
        });
    }
    let function_name = args[1].clone();
    let mut config = ProcessorConfig::new();
    let mut i: usize = 2;
    proof {
        assert(spec_param_pairs(args.deep_view(), 2) =~= Seq::empty());
    }
    while i + 1 < n
        invariant
            n == args@.len(),
            args.deep_view().len() == n,
            n % 2 == 0,
            2 <= i <= n,
            i % 2 == 0,
            forall|j: int| 0 <= j < n ==> #[trigger] args.deep_view()[j] == args@[j]@,
            cfg_view(config.entries@) == spec_param_pairs(args.deep_view(), i as int),
        decreases n - i,
    {
        config.insert(args[i].clone(), args[i + 1].clone());
        proof {
            assert(spec_param_pairs(args.deep_view(), i as int + 2)
                == spec_param_pairs(args.deep_view(), i as int).push(
                    (args.deep_view()[i as int], args.deep_view()[i as int + 1])));
        }
        i = i + 2;
    }
    proof {
        assert(i == n);
    }
    Ok(ProcessorParams { function_name, config })
}

/// The answer text of a successful plugin run.
pub open spec fn spec_answer_ok(code: Seq<char>) -> Seq<char> {
    "OK\n"@ + code
}

/// The answer text of a failed plugin run.
pub open spec fn spec_answer_err(text: Seq<char>) -> Seq<char> {
    "ERR\n"@ + text
}

/// Renders a plugin's answer: an `OK` line followed by the generated
/// source, or an `ERR` line followed by the explanation. The caller
/// writes it to standard output.
pub fn render_answer(result: Result<String, String>) -> (r: String)
    ensures
        match result {
            Ok(code) => r@ == spec_answer_ok(code@),
            Err(text) => r@ == spec_answer_err(text@),
        },
{
    match result {
        Ok(code) => {
            let mut out = String::from_str("OK\n");
            out.append(code.as_str());
            out
        },
        Err(text) => {
            let mut out = String::from_str("ERR\n");
            out.append(text.as_str());
            out
        },
    }
}

/// Generates a copy-field step in the plugin's template: it copies the
/// string at the JSONPath `source_field` of the input to the JSONPath
/// `target_field` of the output. Both options are required.
pub fn copy_field(params: ProcessorParams) -> (r: Result<String, GeneratorError>)
    ensures
        ({
            let cfg = cfg_view(params.config.entries@);
            match r {
                Ok(code) => cfg_get(cfg, "source_field"@) matches Some(s)
                    && cfg_get(cfg, "target_field"@) matches Some(t)
                    && code@ == spec_plugin_copy_field_code(params.function_name@,
                        spec_json_path_key(s), spec_json_path_key(t)),
                Err(e) => (cfg_get(cfg, "source_field"@) is None
                    || cfg_get(cfg, "target_field"@) is None)
                    && (e matches GeneratorError::RequiredConfigNotFound {
                        function_name: fname, field_name: fld, description: d }
                        && fname@ == params.function_name@ && d is None
                        && fld@ == (if cfg_get(cfg, "source_field"@) is None {
                            "source_field"@ } else { "target_field"@ })),
            }
        }),
{
    let function_name = params.function_name;
    let config = params.config;
    let raw_source = match config.get("source_field") {
        Some(f) => f,
        None => {
            return Err(GeneratorError::RequiredConfigNotFound {
                function_name,
                field_name: String::from_str("source_field"),
                description: None,
            });
        },
    };
    let source = json_path_to_object_key(raw_source.as_str());
    let raw_target = match config.get("target_field") {
        Some(f) => f,
        None => {
            return Err(GeneratorError::RequiredConfigNotFound {
                function_name,
                field_name: String::from_str("target_field"),
                description: None,
            });
        },
    };
    let target = json_path_to_object_key(raw_target.as_str());
    let mut out = String::from_str("\nfn ");
    out.append(function_name.as_str());
    out.append(
        "(input: &Value, message: &mut OutputMessage) -> Result<(), ProcessingError> {\n    if let Some(value) = input.get_val(",
    );
    out.append(source.as_str());
    out.append(
        ")?\n        .as_str()\n        .map(|v| v.to_string()) {\n\n        message.insert_val(",
    );
    out.append(target.as_str());
    out.append(", Value::String(value))?;\n    }\n    Ok(())\n}\n");
    proof {
        assert(out@ =~= spec_plugin_copy_field_code(function_name@,
            spec_json_path_key(cfg_get(cfg_view(config.entries@), "source_field"@).unwrap()),
            spec_json_path_key(cfg_get(cfg_view(config.entries@), "target_field"@).unwrap())));
    }
    Ok(out)
}

/// The source of a plugin-generated copy-field step.
pub open spec fn spec_plugin_copy_field_code(
    name: Seq<char>,
    source: Seq<char>,
    target: Seq<char>,
) -> Seq<char> {
    "\nfn "@ + name
        + "(input: &Value, message: &mut OutputMessage) -> Result<(), ProcessingError> {\n    if let Some(value) = input.get_val("@
        + source
        + ")?\n        .as_str()\n        .map(|v| v.to_string()) {\n\n        message.insert_val("@
        + target + ", Value::String(value))?;\n    }\n    Ok(())\n}\n"@
}

/// The pieces of `s` between newline characters, in order, empty pieces
/// included.
pub open spec fn spec_split_nl(s: Seq<char>) -> Seq<Seq<char>>
    decreases s.len(),
{
    if s.len() == 0 {
        seq![Seq::<char>::empty()]
    } else {
        let r = spec_split_nl(s.drop_last());
        if s.last() == '\n' {
            r.push(Seq::empty())
        } else {
            r.update(r.len() - 1, r.last().push(s.last()))
        }
    }
}

proof fn lemma_split_nl_len(s: Seq<char>)
    ensures
        spec_split_nl(s).len() >= 1,
    decreases s.len(),
{
    if s.len() > 0 {
        lemma_split_nl_len(s.drop_last());
    }
}

/// The lines of `s`: the pieces between newlines, without a final empty
/// piece left by a trailing newline.
pub open spec fn spec_lines(s: Seq<char>) -> Seq<Seq<char>> {
    if s.len() == 0 {
        Seq::empty()
    } else {
        let ps = spec_split_nl(s);
        if ps.last().len() == 0 {
            ps.drop_last()
        } else {
            ps
        }
    }
}

/// The lines joined back with newlines.
pub open spec fn spec_join_nl(ps: Seq<Seq<char>>) -> Seq<char>
    decreases ps.len(),
{
    if ps.len() == 0 {
        Seq::empty()
    } else if ps.len() == 1 {
        ps[0]
    } else {
        spec_join_nl(ps.drop_last()) + seq!['\n'] + ps.last()
    }
}

/// What a child's answer means: an empty answer is a failure; an answer
/// whose first line starts with `OK` carries the generated source in
/// the remaining lines; anything else carries an explanation there.
pub open spec fn spec_child_body(output: Seq<char>) -> Seq<char> {
    spec_join_nl(spec_lines(output).drop_first())
}

/// Splits text at newlines.
fn split_nl(s: &str) -> (r: Vec<String>)
    ensures
        r.deep_view() == spec_split_nl(s@),
        r@.len() >= 1,
{
    let n = s.unicode_len();
    let mut done: Vec<String> = Vec::new();
    let mut cur = String::new();
    let mut i: usize = 0;
    proof {
        assert(spec_split_nl(s@.subrange(0, 0)) =~= seq![Seq::<char>::empty()]);
        assert(done.deep_view().push(cur@) =~= seq![Seq::<char>::empty()]);
    }
    while i < n
        invariant
            n == s@.len(),
            i <= n,
            done.deep_view().push(cur@) == spec_split_nl(s@.subrange(0, i as int)),
        decreases n - i,
    {
        proof {
            assert(s@.subrange(0, i as int + 1).drop_last() =~= s@.subrange(0, i as int));
            assert(s@.subrange(0, i as int + 1).last() == s@[i as int]);
        }
        let c = s.get_char(i);
        if c == '\n' {
            let ghost dv = done.deep_view();
            let ghost cv = cur@;
            done.push(cur);
            cur = String::new();
            proof {
                assert(done.deep_view() =~= dv.push(cv));
                assert(done.deep_view().push(cur@)
                    =~= spec_split_nl(s@.subrange(0, i as int + 1)));
            }
        } else {
            let ghost dv = done.deep_view();
            let ghost cv = cur@;
            cur.append(s.substring_char(i, i + 1));
            proof {
                assert(s@.subrange(i as int, i as int + 1) =~= seq![s@[i as int]]);
                assert(cur@ == cv.push(s@[i as int]));
                let prev = spec_split_nl(s@.subrange(0, i as int));
                assert(prev.last() == cv);
                assert(prev.drop_last() =~= dv);
                assert(done.deep_view().push(cur@)
                    =~= prev.update(prev.len() - 1, prev.last().push(s@[i as int])));
            }
        }
        i = i + 1;
    }
    let ghost dv = done.deep_view();
    let ghost cv = cur@;
    done.push(cur);
    proof {
        assert(s@.subrange(0, n as int) =~= s@);
        assert(done.deep_view() =~= dv.push(cv));
    }
    done
}

/// Reads a child generator's answer: empty output or an output that
/// does not begin with `OK` is a failure carrying the remaining lines
/// as explanation; otherwise the remaining lines are the generated
/// source.
pub fn interpret_child_output(generator_path: &str, output: String) -> (r: Result<
    String,
    ProcessorGenerationError,
>)
    ensures
        output@.len() == 0 ==> (r matches Err(e)
            && e matches ProcessorGenerationError::GeneratorError { description: d }
            && d@ == "["@ + generator_path@ + "] Process output is empty."@),
        output@.len() > 0 && spec_starts_with(output@, "OK"@) ==> (r matches Ok(s)
            && s@ == spec_child_body(output@)),
        output@.len() > 0 && !spec_starts_with(output@, "OK"@) ==> (r matches Err(e)
            && e matches ProcessorGenerationError::GeneratorError { description: d }
            && d@ == "["@ + generator_path@ + "] "@ + spec_child_body(output@) + "."@),
{
    let n = output.as_str().unicode_len();
    if n == 0 {
        let mut msg = String::from_str("[");
        msg.append(generator_path);
        msg.append("] Process output is empty.");
        proof {
            assert(msg@ =~= "["@ + generator_path@ + "] Process output is empty."@);
        }
        return Err(ProcessorGenerationError::GeneratorError { description: msg });
    }
    let pieces = split_nl(output.as_str());
    let m = pieces.len();
    proof {
        assert(pieces.deep_view().len() == m);
        lemma_split_nl_len(output@);
    }
    let last_is_empty = pieces[m - 1].as_str().unicode_len() == 0;
    let upto = if last_is_empty { m - 1 } else { m };
    let ghost lines = spec_lines(output@);
    proof {
        if last_is_empty {
            assert(pieces.deep_view().last().len() == 0);
            if m == 1 {
                lemma_single_piece_nonempty(output@);
                assert(false);
            }
            assert(lines =~= pieces.deep_view().drop_last());
        } else {
            assert(lines =~= pieces.deep_view());
        }
        assert(upto >= 1);
        assert(lines.len() == upto as int);
        assert(forall|j: int| 0 <= j < upto ==> #[trigger] lines[j]
            == pieces.deep_view()[j]);
    }
    let mut body = String::new();
    let mut j: usize = 1;
    proof {
        assert(lines.drop_first().subrange(0, 0) =~= Seq::<Seq<char>>::empty());
        assert(spec_join_nl(Seq::<Seq<char>>::empty()) =~= Seq::<char>::empty());
    }
    while j < upto
        invariant
            1 <= j <= upto,
            1 <= upto,
            upto <= m,
            m == pieces@.len(),
            pieces.deep_view().len() == m,
            lines.len() == upto as int,
            forall|q: int| 0 <= q < upto ==> #[trigger] lines[q] == pieces.deep_view()[q],
            body@ == spec_join_nl(lines.drop_first().subrange(0, j as int - 1)),
        decreases m - j,
    {
        proof {
            assert(lines.drop_first().subrange(0, j as int).drop_last()
                =~= lines.drop_first().subrange(0, j as int - 1));
            assert(lines.drop_first().subrange(0, j as int).last()
                == lines[j as int]);
        }
        if j > 1 {
            body.append("\n");
            proof {
                reveal_strlit("\n");
            }
        }
        body.append(pieces[j].as_str());
        proof {
            assert(body@ =~= spec_join_nl(lines.drop_first().subrange(0, j as int)));
        }
        j = j + 1;
    }
    proof {
        if upto >= 1 {
            assert(lines.drop_first().subrange(0, upto as int - 1) =~= lines.drop_first());
        }
        assert(body@ == spec_child_body(output@));
    }
    if str_starts_with(output.as_str(), "OK") {
        Ok(body)
    } else {
        let mut msg = String::from_str("[");
        msg.append(generator_path);
        msg.append("] ");
        msg.append(body.as_str());
        msg.append(".");
        proof {
            assert(msg@ =~= "["@ + generator_path@ + "] "@ + spec_child_body(output@) + "."@);
        }
        Err(ProcessorGenerationError::GeneratorError { description: msg })
    }
}

/// A one-piece split of a non-empty text has a non-empty piece.
proof fn lemma_single_piece_nonempty(s: Seq<char>)
    requires
        s.len() > 0,
        spec_split_nl(s).len() == 1,
    ensures
        spec_split_nl(s).last().len() > 0,
{
    let r = spec_split_nl(s.drop_last());
    lemma_split_nl_len(s.drop_last());
    if s.last() == '\n' {
        assert(spec_split_nl(s).len() == r.len() + 1);
        assert(false);
    } else {
        assert(spec_split_nl(s).last() == r.last().push(s.last()));
    }
}

} // verus!
