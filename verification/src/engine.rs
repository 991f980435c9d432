//! The deterministic pipeline: parse (bind inputs, apply codecs), policy,
//! render; the rendered output is identified by the CID of its canonical bytes.
use vstd::prelude::*;
use crate::bind::{bind_by_name, bind_vars_to_inputs, lemma_bind_one_to_one, spec_bind};
use crate::canon::{canonical_bytes, spec_canonical_bytes};
use crate::cid::{cid_b3, spec_cid};
use crate::digest::{base64_decode, spec_base64_decode, spec_utf8_lossy, utf8_lossy};
use crate::error::{strings_view, ErrModel, Result, RuntimeError};
use crate::json::{
    entries_model, lemma_map_insert_get, map_get, map_insert, obj_get, obj_insert, Json, JsonMap,
    JsonValue,
};
use crate::policy::{resolve, rules_view, spec_resolve, traces_view, CascadePolicy, PolicyResult, PolicyTraceEntry, ResultModel};
use crate::text::{append_str, str_eq, string_from_chars};

verus! {

/// One codec step of a grammar: read `from`, decode with `codec`, write `to`.
#[derive(Debug, Clone)]
pub struct Mapping {
    pub from: String,
    /// e.g. "base64.decode"
    pub codec: String,
    /// e.g. "raw.bytes"
    pub to: String,
}

/// A stage grammar: declared inputs, codec mappings, and the key of its output.
#[derive(Debug)]
pub struct Grammar {
    /// Declared inputs (name -> placeholder/type metadata)
    pub inputs: JsonMap,
    pub mappings: Vec<Mapping>,
    /// Key whose value is the stage output
    pub output_from: String,
}

/// The legacy allow/deny switch of a manifest.
#[derive(Debug, Clone, Copy)]
pub struct Policy {
    pub allow: bool,
}

/// A pipeline: parse grammar, render grammar and policy.
#[derive(Debug)]
pub struct Manifest {
    pub pipeline: String,
    pub in_grammar: Grammar,
    pub out_grammar: Grammar,
    pub policy: Policy,
}

#[derive(Debug, Clone)]
pub struct ExecuteConfig {
    pub version: String,
}

#[derive(Debug)]
pub struct Artifacts {
    pub output: JsonValue,
    pub sub_receipts: Vec<JsonValue>,
}

#[derive(Debug)]
pub struct ExecuteResult {
    pub artifacts: Artifacts,
    pub dimension_stack: Vec<String>,
    pub cid: String,
    /// Policy trace from the cascade evaluation.
    pub policy_trace: Vec<PolicyTraceEntry>,
}

/// What a successful execution yields.
pub struct ExecModel {
    pub output: Json,
    pub cid: Seq<char>,
    pub trace: Seq<crate::policy::TraceModel>,
}

/// The stages an execution passes through.
pub open spec fn dimension_stack_spec() -> Seq<Seq<char>> {
    seq!["parse"@, "policy"@, "render"@]
}

/// One codec applied to a value.
pub open spec fn apply_codec(src: Json, codec: Seq<char>) -> core::result::Result<Json, ErrModel> {
    if codec == "base64.decode"@ {
        match src {
            Json::Str(s) => match spec_base64_decode(s) {
                Some(b) => Ok(Json::Str(spec_utf8_lossy(b))),
                None => Err(ErrModel::Validation("base64"@)),
            },
            _ => Err(ErrModel::Validation("expected string"@)),
        }
    } else {
        Err(ErrModel::Validation("unknown codec: "@ + codec))
    }
}

/// The mappings applied in order to a context.
pub open spec fn spec_apply(ctx: Seq<(Seq<char>, Json)>, maps: Seq<Mapping>) -> core::result::Result<
    Seq<(Seq<char>, Json)>,
    ErrModel,
>
    decreases maps.len(),
{
    if maps.len() == 0 {
        Ok(ctx)
    } else {
        let m = maps[0];
        match map_get(ctx, m.from@) {
            None => Err(ErrModel::Validation("mapping: key '"@ + m.from@ + "' not found"@)),
            Some(src) => match apply_codec(src, m.codec@) {
                Err(e) => Err(e),
                Ok(v) => spec_apply(map_insert(ctx, m.to@, v), maps.drop_first()),
            },
        }
    }
}

/// Each entry of `es` inserted in turn into `acc`.
pub open spec fn insert_all(acc: Seq<(Seq<char>, Json)>, es: Seq<(Seq<char>, Json)>) -> Seq<
    (Seq<char>, Json),
>
    decreases es.len(),
{
    if es.len() == 0 {
        acc
    } else {
        map_insert(insert_all(acc, es.drop_last()), es.last().0, es.last().1)
    }
}

/// The parse stage: the context after binding and mappings, and the parse output.
pub open spec fn spec_parse_stage(m: Manifest, vars: Seq<(Seq<char>, Json)>) -> core::result::Result<
    (Seq<(Seq<char>, Json)>, Json),
    ErrModel,
> {
    match spec_bind(vars, entries_model(m.in_grammar.inputs@)) {
        Err((missing, available)) => Err(ErrModel::Binding(missing, available)),
        Ok(b) => match spec_apply(insert_all(Seq::empty(), b), m.in_grammar.mappings@) {
            Err(e) => Err(e),
            Ok(ctx) => match map_get(ctx, m.in_grammar.output_from@) {
                None => Err(
                    ErrModel::Validation("parse: missing '"@ + m.in_grammar.output_from@ + "'"@),
                ),
                Some(p) => Ok((ctx, p)),
            },
        },
    }
}

/// The render stage: the parse output bound to the render grammar, mappings
/// applied, and the render output read.
pub open spec fn spec_render_stage(m: Manifest, ctx: Seq<(Seq<char>, Json)>, parse_out: Json) -> core::result::Result<
    Json,
    ErrModel,
> {
    let render_vars = seq![("__prev_output__"@, parse_out)];
    match spec_bind(render_vars, entries_model(m.out_grammar.inputs@)) {
        Err((missing, available)) => Err(ErrModel::Binding(missing, available)),
        Ok(b) => match spec_apply(insert_all(ctx, b), m.out_grammar.mappings@) {
            Err(e) => Err(e),
            Ok(ctx2) => match map_get(ctx2, m.out_grammar.output_from@) {
                None => Err(
                    ErrModel::Validation("render: missing '"@ + m.out_grammar.output_from@ + "'"@),
                ),
                Some(f) => Ok(f),
            },
        },
    }
}

/// The pipeline under a given policy outcome.
pub open spec fn spec_execute_with(
    m: Manifest,
    vars: Seq<(Seq<char>, Json)>,
    policy: ResultModel,
) -> core::result::Result<ExecModel, ErrModel> {
    match spec_parse_stage(m, vars) {
        Err(e) => Err(e),
        Ok((ctx, p)) => if policy.decision == "DENY"@ {
            Err(
                ErrModel::PolicyDeny(
                    match policy.reason {
                        Some(r) => r,
                        None => "policy deny"@,
                    },
                ),
            )
        } else {
            match spec_render_stage(m, ctx, p) {
                Err(e) => Err(e),
                Ok(f) => Ok(
                    ExecModel { output: f, cid: spec_cid(spec_canonical_bytes(f)), trace: policy.trace },
                ),
            }
        },
    }
}

/// What `execute` yields: the manifest's legacy switch decides the policy.
pub open spec fn spec_execute(m: Manifest, vars: Seq<(Seq<char>, Json)>) -> core::result::Result<
    ExecModel,
    ErrModel,
> {
    spec_execute_with(m, vars, spec_resolve(m.policy.allow, Seq::empty(), vars, None))
}

/// The parse stage applies the parse grammar's mappings: with a single
/// declared input `k`, a variable `k` holding base64 text, and a single
/// `base64.decode` mapping from `k` to the parse output's key, the parse
/// output is the decoded text.
pub proof fn lemma_parse_decodes(
    m: Manifest,
    vars: Seq<(Seq<char>, Json)>,
    s: Seq<char>,
    bytes: Seq<u8>,
)
    requires
        entries_model(m.in_grammar.inputs@).len() == 1,
        map_get(vars, entries_model(m.in_grammar.inputs@)[0].0) == Some(Json::Str(s)),
        m.in_grammar.mappings@.len() == 1,
        m.in_grammar.mappings@[0].from@ == entries_model(m.in_grammar.inputs@)[0].0,
        m.in_grammar.mappings@[0].codec@ == "base64.decode"@,
        m.in_grammar.mappings@[0].to@ == m.in_grammar.output_from@,
        spec_base64_decode(s) == Some(bytes),
    ensures
        spec_parse_stage(m, vars) matches Ok((ctx, p)) && p == Json::Str(spec_utf8_lossy(bytes)),
{
    let inputs = entries_model(m.in_grammar.inputs@);
    let k = inputs[0].0;
    let src = Json::Str(s);
    reveal_with_fuel(bind_by_name, 2);
    reveal_with_fuel(insert_all, 2);
    assert(inputs.drop_last() =~= Seq::<(Seq<char>, Json)>::empty());
    let b = seq![(k, src)];
    assert(spec_bind(vars, inputs) matches Ok(x) && x == b);
    assert(b.drop_last() =~= Seq::<(Seq<char>, Json)>::empty());
    let c1 = insert_all(Seq::empty(), b);
    assert(c1 == map_insert(Seq::empty(), k, src));
    lemma_map_insert_get(Seq::empty(), k, src);
    let maps = m.in_grammar.mappings@;
    let v = Json::Str(spec_utf8_lossy(bytes));
    assert(apply_codec(src, maps[0].codec@) == Ok::<Json, ErrModel>(v));
    let c2 = map_insert(c1, maps[0].to@, v);
    assert(maps.drop_first() =~= Seq::<Mapping>::empty());
    assert(spec_apply(c1, maps) == spec_apply(c2, maps.drop_first()));
    lemma_map_insert_get(c1, maps[0].to@, v);
}

/// The render stage applies the render grammar's mappings: with a single
/// declared input and a single `base64.decode` mapping from that input to
/// the render output's key, the render output is the text that the parse
/// output decodes to, whatever the context.
pub proof fn lemma_render_decodes(
    m: Manifest,
    ctx: Seq<(Seq<char>, Json)>,
    parse_out: Json,
    s: Seq<char>,
    bytes: Seq<u8>,
)
    requires
        entries_model(m.out_grammar.inputs@).len() == 1,
        m.out_grammar.mappings@.len() == 1,
        m.out_grammar.mappings@[0].from@ == entries_model(m.out_grammar.inputs@)[0].0,
        m.out_grammar.mappings@[0].codec@ == "base64.decode"@,
        m.out_grammar.mappings@[0].to@ == m.out_grammar.output_from@,
        parse_out == Json::Str(s),
        spec_base64_decode(s) == Some(bytes),
    ensures
        spec_render_stage(m, ctx, parse_out) matches Ok(out) && out == Json::Str(
            spec_utf8_lossy(bytes),
        ),
{
    let inputs = entries_model(m.out_grammar.inputs@);
    let k = inputs[0].0;
    let vars = seq![("__prev_output__"@, parse_out)];
    let b = seq![(k, parse_out)];
    reveal_with_fuel(bind_by_name, 2);
    reveal_with_fuel(map_get, 2);
    assert(inputs.drop_last() =~= Seq::<(Seq<char>, Json)>::empty());
    if map_get(vars, k) is None {
        lemma_bind_one_to_one(vars, inputs);
    }
    assert(spec_bind(vars, inputs) matches Ok(x) && x == b);
    assert(b.drop_last() =~= Seq::<(Seq<char>, Json)>::empty());
    let c1 = insert_all(ctx, b);
    reveal_with_fuel(insert_all, 2);
    assert(c1 == map_insert(ctx, k, parse_out));
    lemma_map_insert_get(ctx, k, parse_out);
    let maps = m.out_grammar.mappings@;
    let v = Json::Str(spec_utf8_lossy(bytes));
    assert(apply_codec(parse_out, maps[0].codec@) == Ok::<Json, ErrModel>(v));
    let c2 = map_insert(c1, maps[0].to@, v);
    assert(maps.drop_first() =~= Seq::<Mapping>::empty());
    assert(spec_apply(c1, maps) == spec_apply(c2, maps.drop_first()));
    lemma_map_insert_get(c1, maps[0].to@, v);
}

/// A successful execution is identified by its output: the CID is that of
/// the output's canonical bytes.
pub proof fn lemma_execute_cid(m: Manifest, vars: Seq<(Seq<char>, Json)>, policy: ResultModel)
    ensures
        spec_execute_with(m, vars, policy) matches Ok(x) ==> x.cid == spec_cid(
            spec_canonical_bytes(x.output),
        ),
{
}

/// An allowed execution renders through the render grammar: with a single
/// `base64.decode` render mapping (as in `lemma_render_decodes`), the output
/// is the decoded text of the parse output, and the CID is that text's.
pub proof fn lemma_execute_renders(
    m: Manifest,
    vars: Seq<(Seq<char>, Json)>,
    policy: ResultModel,
    s: Seq<char>,
    bytes: Seq<u8>,
)
    requires
        spec_parse_stage(m, vars) matches Ok((ctx, p)) && p == Json::Str(s),
        policy.decision != "DENY"@,
        entries_model(m.out_grammar.inputs@).len() == 1,
        m.out_grammar.mappings@.len() == 1,
        m.out_grammar.mappings@[0].from@ == entries_model(m.out_grammar.inputs@)[0].0,
        m.out_grammar.mappings@[0].codec@ == "base64.decode"@,
        m.out_grammar.mappings@[0].to@ == m.out_grammar.output_from@,
        spec_base64_decode(s) == Some(bytes),
    ensures
        spec_execute_with(m, vars, policy) matches Ok(x) && x.output == Json::Str(
            spec_utf8_lossy(bytes),
        ) && x.cid == spec_cid(spec_canonical_bytes(Json::Str(spec_utf8_lossy(bytes)))),
{
    let (ctx, p) = spec_parse_stage(m, vars)->Ok_0;
    lemma_render_decodes(m, ctx, p, s, bytes);
}

/// Whether `r` is the result described by `s`.
pub open spec fn execute_result_matches(
    r: Result<ExecuteResult>,
    s: core::result::Result<ExecModel, ErrModel>,
) -> bool {
    match s {
        Ok(x) => r matches Ok(res) && res.artifacts.output.model() == x.output && res.cid@ == x.cid
            && traces_view(res.policy_trace@) == x.trace && res.artifacts.sub_receipts@.len() == 0
            && strings_view(res.dimension_stack@) == dimension_stack_spec(),
        Err(e) => r matches Err(err) && err@ == e,
    }
}

fn decode_codec(src: &JsonValue, codec: &String) -> (r: Result<JsonValue>)
    ensures
        match apply_codec(src.model(), codec@) {
            Ok(v) => r matches Ok(x) && x.model() == v,
            Err(e) => r matches Err(x) && x@ == e,
        },
{
    if str_eq(codec.as_str(), "base64.decode") {
        match src.as_str() {
            Some(s) => match base64_decode(s.as_str()) {
                Some(bytes) => Ok(JsonValue::Str(utf8_lossy(bytes.as_slice()))),
                None => Err(RuntimeError::Validation("base64".to_owned())),
            },
            None => Err(RuntimeError::Validation("expected string".to_owned())),
        }
    } else {
        let mut out: Vec<char> = Vec::new();
        append_str(&mut out, "unknown codec: ");
        append_str(&mut out, codec.as_str());
        assert(out@ =~= "unknown codec: "@ + codec@);
        Err(RuntimeError::Validation(string_from_chars(&out)))
    }
}

/// Applies the mappings in order to `ctx`.
fn apply_mappings(ctx: &mut JsonMap, maps: &Vec<Mapping>) -> (r: Result<()>)
    ensures
        match spec_apply(entries_model(old(ctx)@), maps@) {
            Ok(c) => r is Ok && entries_model(final(ctx)@) == c,
            Err(e) => r matches Err(x) && x@ == e,
        },
{
    let ghost target = spec_apply(entries_model(ctx@), maps@);
    let mut i: usize = 0;
    assert(maps@.skip(0) =~= maps@);
    while i < maps.len()
        invariant
            i <= maps.len(),
            target == spec_apply(entries_model(ctx@), maps@.skip(i as int)),
            target == spec_apply(entries_model(old(ctx)@), maps@),
        decreases maps.len() - i,
    {
        let m = &maps[i];
        assert(maps@.skip(i as int)[0] == *m);
        assert(maps@.skip(i as int).drop_first() =~= maps@.skip(i + 1));
        let src = match obj_get(ctx, m.from.as_str()) {
            Some(v) => v,
            None => {
                let mut out: Vec<char> = Vec::new();
                append_str(&mut out, "mapping: key '");
                append_str(&mut out, m.from.as_str());
                append_str(&mut out, "' not found");
                assert(out@ =~= "mapping: key '"@ + m.from@ + "' not found"@);
                return Err(RuntimeError::Validation(string_from_chars(&out)));
            },
        };
        let val = decode_codec(src, &m.codec)?;
        obj_insert(ctx, m.to.clone(), val);
        i = i + 1;
    }
    Ok(())
}

/// Inserts every entry of `es` into `ctx`, in order.
fn insert_entries(ctx: &mut JsonMap, es: &JsonMap)
    ensures
        entries_model(final(ctx)@) == insert_all(entries_model(old(ctx)@), entries_model(es@)),
{
    let ghost em = entries_model(es@);
    let ghost start = entries_model(ctx@);
    let mut i: usize = 0;
    while i < es.len()
        invariant
            i <= es.len(),
            em == entries_model(es@),
            entries_model(ctx@) == insert_all(start, em.take(i as int)),
        decreases es.len() - i,
    {
        proof {
            assert(em.take(i + 1).drop_last() =~= em.take(i as int));
            assert(em.take(i + 1).last() == em[i as int]);
        }
        let v = es[i].1.duplicate();
        obj_insert(ctx, es[i].0.clone(), v);
        i = i + 1;
    }
    assert(em.take(es.len() as int) =~= em);
}

fn missing_message(prefix: &str, key: &String) -> (r: String)
    ensures
        r@ == prefix@ + key@ + "'"@,
{
    let mut out: Vec<char> = Vec::new();
    append_str(&mut out, prefix);
    append_str(&mut out, key.as_str());
    append_str(&mut out, "'");
    assert(out@ =~= prefix@ + key@ + "'"@);
    string_from_chars(&out)
}

/// The parse stage: inputs bound to the parse grammar, its mappings applied,
/// and its output read; the context is kept for the render stage.
pub(crate) fn parse_stage(manifest: &Manifest, vars: &JsonMap) -> (r: Result<(JsonMap, JsonValue)>)
    ensures
        match spec_parse_stage(*manifest, entries_model(vars@)) {
            Ok((ctx, p)) => r matches Ok((c, v)) && entries_model(c@) == ctx && v.model() == p,
            Err(e) => r matches Err(x) && x@ == e,
        },
{
    let mut ctx: JsonMap = Vec::new();
    assert(entries_model(ctx@) =~= Seq::empty());
    let bound = bind_vars_to_inputs(vars, &manifest.in_grammar.inputs)?;
    insert_entries(&mut ctx, &bound);
    apply_mappings(&mut ctx, &manifest.in_grammar.mappings)?;
    let parse_out = match obj_get(&ctx, manifest.in_grammar.output_from.as_str()) {
        Some(v) => v.duplicate(),
        None => {
            return Err(
                RuntimeError::Validation(
                    missing_message("parse: missing '", &manifest.in_grammar.output_from),
                ),
            );
        },
    };
    Ok((ctx, parse_out))
}

/// The render stage: only the parse output is fed, one to one, to the render
/// grammar; its mappings are applied and its output read.
pub(crate) fn render_stage(manifest: &Manifest, ctx: JsonMap, parse_out: JsonValue) -> (r: Result<
    JsonValue,
>)
    ensures
        match spec_render_stage(*manifest, entries_model(ctx@), parse_out.model()) {
            Ok(f) => r matches Ok(v) && v.model() == f,
            Err(e) => r matches Err(x) && x@ == e,
        },
{
    let mut ctx = ctx;
    let mut render_vars: JsonMap = Vec::new();
    assert(entries_model(render_vars@) =~= Seq::empty());
    obj_insert(&mut render_vars, "__prev_output__".to_owned(), parse_out);
    let bound = bind_vars_to_inputs(&render_vars, &manifest.out_grammar.inputs)?;
    insert_entries(&mut ctx, &bound);
    apply_mappings(&mut ctx, &manifest.out_grammar.mappings)?;
    match obj_get(&ctx, manifest.out_grammar.output_from.as_str()) {
        Some(v) => Ok(v.duplicate()),
        None => Err(
            RuntimeError::Validation(
                missing_message("render: missing '", &manifest.out_grammar.output_from),
            ),
        ),
    }
}

/// The stages an execution passes through, as strings.
pub(crate) fn dimension_stack() -> (r: Vec<String>)
    ensures
        strings_view(r@) == dimension_stack_spec(),
{
    let mut dimension_stack: Vec<String> = Vec::new();
    dimension_stack.push("parse".to_owned());
    dimension_stack.push("policy".to_owned());
    dimension_stack.push("render".to_owned());
    assert(strings_view(dimension_stack@) =~= dimension_stack_spec());
    dimension_stack
}

/// Runs parse, the given policy outcome, and render.
fn execute_with_policy(manifest: &Manifest, vars: &JsonMap, policy_result: PolicyResult) -> (r:
    Result<ExecuteResult>)
    ensures
        execute_result_matches(r, spec_execute_with(*manifest, entries_model(vars@), policy_result@)),
{
    let (ctx, parse_out) = parse_stage(manifest, vars)?;
    // policy
    if str_eq(policy_result.decision.as_str(), "DENY") {
        let reason = match policy_result.reason {
            Some(r) => r,
            None => "policy deny".to_owned(),
        };
        return Err(RuntimeError::PolicyDeny(reason));
    }
    let policy_trace = policy_result.policy_trace;
    let final_out = render_stage(manifest, ctx, parse_out)?;
    // canonicalize and hash for the CID
    let bytes = canonical_bytes(&final_out)?;
    let cid = cid_b3(bytes.as_slice());
    Ok(
        ExecuteResult {
            artifacts: Artifacts { output: final_out, sub_receipts: Vec::new() },
            dimension_stack: dimension_stack(),
            cid,
            policy_trace,
        },
    )
}

/// Runs the pipeline: parse, the manifest's legacy policy switch, render.
pub fn execute(manifest: &Manifest, vars: &JsonMap, _cfg: &ExecuteConfig) -> (r: Result<
    ExecuteResult,
>)
    ensures
        execute_result_matches(r, spec_execute(*manifest, entries_model(vars@))),
{
    let cascade = CascadePolicy { allow: manifest.policy.allow, rules: Vec::new() };
    let policy_result = resolve(&cascade, vars, None);
    assert(rules_view(cascade.rules@) =~= Seq::empty());
    execute_with_policy(manifest, vars, policy_result)
}

/// Runs the pipeline under a full cascade policy (rules and trace).
pub fn execute_with_cascade(
    manifest: &Manifest,
    vars: &JsonMap,
    _cfg: &ExecuteConfig,
    cascade: &CascadePolicy,
    body_size: Option<usize>,
) -> (r: Result<ExecuteResult>)
    ensures
        execute_result_matches(
            r,
            spec_execute_with(
                *manifest,
                entries_model(vars@),
                spec_resolve(cascade.allow, rules_view(cascade.rules@), entries_model(vars@), body_size),
            ),
        ),
{
    let policy_result = resolve(cascade, vars, body_size);
    execute_with_policy(manifest, vars, policy_result)
}

} // verus!
