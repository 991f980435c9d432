//! The TDLN engine: the parse → policy → render pipeline with the manifest's
//! allow flag as its only policy. A denied manifest is a validation error
//! ("policy deny"), and no policy trace is kept.
use vstd::prelude::*;
use crate::canon::{canonical_bytes, spec_canonical_bytes};
use crate::cid::{cid_b3, spec_cid};
use crate::engine::{
    dimension_stack, dimension_stack_spec, parse_stage, render_stage, spec_execute,
    spec_parse_stage, spec_render_stage, Artifacts, ExecuteConfig, Manifest,
};
use crate::error::{strings_view, ErrModel, Result, RuntimeError};
use crate::json::{entries_model, Json, JsonMap};

verus! {

/// What an execution yields: the rendered output, the stages passed, and the
/// CID of the output's canonical bytes.
#[derive(Debug)]
pub struct ExecuteResult {
    pub artifacts: Artifacts,
    pub dimension_stack: Vec<String>,
    pub cid: String,
}

/// The output and its CID, or the error.
pub open spec fn spec_tdln_execute(m: Manifest, vars: Seq<(Seq<char>, Json)>) -> core::result::Result<
    (Json, Seq<char>),
    ErrModel,
> {
    match spec_parse_stage(m, vars) {
        Err(e) => Err(e),
        Ok((ctx, p)) => if !m.policy.allow {
            Err(ErrModel::Validation("policy deny"@))
        } else {
            match spec_render_stage(m, ctx, p) {
                Err(e) => Err(e),
                Ok(f) => Ok((f, spec_cid(spec_canonical_bytes(f)))),
            }
        },
    }
}

/// Runs the pipeline: parse, the allow flag, render.
pub fn execute(manifest: &Manifest, vars: &JsonMap, _cfg: &ExecuteConfig) -> (r: Result<
    ExecuteResult,
>)
    ensures
        match spec_tdln_execute(*manifest, entries_model(vars@)) {
            Ok((out, cid)) => r matches Ok(res) && res.artifacts.output.model() == out && res.cid@
                == cid && res.artifacts.sub_receipts@.len() == 0 && strings_view(
                res.dimension_stack@,
            ) == dimension_stack_spec(),
            Err(e) => r matches Err(x) && x@ == e,
        },
{
    let (ctx, parse_out) = parse_stage(manifest, vars)?;
    if !manifest.policy.allow {
        return Err(RuntimeError::Validation("policy deny".to_owned()));
    }
    let final_out = render_stage(manifest, ctx, parse_out)?;
    let bytes = canonical_bytes(&final_out)?;
    let cid = cid_b3(bytes.as_slice());
    Ok(
        ExecuteResult {
            artifacts: Artifacts { output: final_out, sub_receipts: Vec::new() },
            dimension_stack: dimension_stack(),
            cid,
        },
    )
}

/// The two engines agree: when the runtime engine succeeds, the TDLN engine
/// gives the same output and CID; they fail on the same inputs, and differ
/// only in how a denied manifest is reported.
pub proof fn lemma_engines_agree(m: Manifest, vars: Seq<(Seq<char>, Json)>)
    ensures
        spec_execute(m, vars) is Ok <==> spec_tdln_execute(m, vars) is Ok,
        spec_execute(m, vars) matches Ok(x) ==> spec_tdln_execute(m, vars) == Ok::<
            (Json, Seq<char>),
            ErrModel,
        >((x.output, x.cid)),
        spec_parse_stage(m, vars) is Ok && !m.policy.allow ==> spec_execute(m, vars) == Err::<
            crate::engine::ExecModel,
            ErrModel,
        >(ErrModel::PolicyDeny("policy deny"@)) && spec_tdln_execute(m, vars) == Err::<
            (Json, Seq<char>),
            ErrModel,
        >(ErrModel::Validation("policy deny"@)),
{
    assert("ALLOW"@ != "DENY"@) by {
        reveal_strlit("ALLOW");
        reveal_strlit("DENY");
        assert("ALLOW"@.len() != "DENY"@.len());
    }
    if m.policy.allow {
        assert(crate::policy::spec_resolve(m.policy.allow, Seq::empty(), vars, None).decision
            == "ALLOW"@);
    }
}

} // verus!
