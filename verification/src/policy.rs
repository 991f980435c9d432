//! Cascading policy: rules evaluated in order (global, then tenant, then app);
//! the first failing DENY rule decides, a failing WARN rule is recorded and
//! evaluation goes on. With no rules, the legacy `allow` flag decides.
use vstd::prelude::*;
use crate::json::{entries_model, map_get, obj_get, Json, JsonMap};
use crate::text::{
    append_str, chars_of, ends_with, has_prefix, has_suffix, parse_usize, parse_usize_chars,
    split_once, split_once_chars, starts_with, str_eq, string_from_chars, sub_chars, trim_chars,
    trim_end, trim_start, trimmed, is_ws, find_from,
};

verus! {

/// A single policy rule with a condition expression and action.
#[derive(Debug, Clone)]
pub struct PolicyRule {

    /// Unique rule identifier (e.g., "ACME_REQUIRE_BRAND")
    pub id: String,
    /// Cascade level: "global", "tenant", or "app"
    pub level: String,
    /// Human-readable description
    pub description: String,
    /// Condition: "inputs.<key>", "inputs.<key> != null", "inputs.<key> == <value>",
    /// "body_size <= N"; empty or "true" always passes.
    pub condition: String,
    /// Action on condition failure: "DENY" or "WARN"
    pub action: String,
    /// Human-readable reason shown on DENY
    pub reason: String,
}

/// Result of evaluating a single rule.
#[derive(Debug, Clone)]
pub struct PolicyTraceEntry {
    pub level: String,
    pub rule: String,
    /// "PASS" or "DENY"
    pub result: String,
    pub reason: Option<String>,
}

/// Outcome of the full policy cascade evaluation.
#[derive(Debug, Clone)]
pub struct PolicyResult {
    /// "ALLOW" or "DENY"
    pub decision: String,
    /// The rule that decided (if DENY)
    pub decided_by: Option<String>,
    /// Human-readable reason (if DENY)
    pub reason: Option<String>,
    /// Full trace of all rules evaluated
    pub policy_trace: Vec<PolicyTraceEntry>,
}

/// Extended policy supporting cascading rules; with no rules it behaves like
/// the legacy `Policy { allow }`.
#[derive(Debug, Clone)]
pub struct CascadePolicy {
    /// Legacy field: simple allow/deny switch
    pub allow: bool,
    /// Ordered rules evaluated in cascade: global → tenant → app.
    pub rules: Vec<PolicyRule>,
}

pub struct RuleModel {
    pub id: Seq<char>,
    pub level: Seq<char>,
    pub description: Seq<char>,
    pub condition: Seq<char>,
    pub action: Seq<char>,
    pub reason: Seq<char>,
}

pub struct TraceModel {
    pub level: Seq<char>,
    pub rule: Seq<char>,
    pub result: Seq<char>,
    pub reason: Option<Seq<char>>,
}

pub struct ResultModel {
    pub decision: Seq<char>,
    pub decided_by: Option<Seq<char>>,
    pub reason: Option<Seq<char>>,
    pub trace: Seq<TraceModel>,
}

pub open spec fn opt_view(o: Option<String>) -> Option<Seq<char>> {
    match o {
        Some(s) => Some(s@),
        None => None,
    }
}

impl View for PolicyRule {
    type V = RuleModel;

    open spec fn view(&self) -> RuleModel {
        RuleModel {
            id: self.id@,
            level: self.level@,
            description: self.description@,
            condition: self.condition@,
            action: self.action@,
            reason: self.reason@,
        }
    }
}

impl View for PolicyTraceEntry {
    type V = TraceModel;

    open spec fn view(&self) -> TraceModel {
        TraceModel {
            level: self.level@,
            rule: self.rule@,
            result: self.result@,
            reason: opt_view(self.reason),
        }
    }
}

pub open spec fn traces_view(t: Seq<PolicyTraceEntry>) -> Seq<TraceModel> {
    t.map_values(|e: PolicyTraceEntry| e@)
}

pub open spec fn rules_view(r: Seq<PolicyRule>) -> Seq<RuleModel> {
    r.map_values(|e: PolicyRule| e@)
}

impl View for PolicyResult {
    type V = ResultModel;

    open spec fn view(&self) -> ResultModel {
        ResultModel {
            decision: self.decision@,
            decided_by: opt_view(self.decided_by),
            reason: opt_view(self.reason),
            trace: traces_view(self.policy_trace@),
        }
    }
}

/// Default condition of a rule: always pass.
pub fn default_condition() -> (r: String)
    ensures
        r@ == "true"@,
{
    "true".to_owned()
}

/// Default action of a rule: deny.
pub fn default_action() -> (r: String)
    ensures
        r@ == "DENY"@,
{
    "DENY".to_owned()
}

/// Default of the legacy `allow` flag.
pub fn default_true() -> (r: bool)
    ensures
        r,
{
    true
}

impl CascadePolicy {
    /// A simple allow policy (no rules).
    pub fn allow() -> (r: CascadePolicy)
        ensures
            r.allow,
            r.rules@.len() == 0,
    {
        CascadePolicy { allow: true, rules: Vec::new() }
    }

    /// A simple deny policy (no rules).
    pub fn deny() -> (r: CascadePolicy)
        ensures
            !r.allow,
            r.rules@.len() == 0,
    {
        CascadePolicy { allow: false, rules: Vec::new() }
    }
}

impl Default for CascadePolicy {
    fn default() -> (r: CascadePolicy)
        ensures
            r.allow,
            r.rules@.len() == 0,
    {
        CascadePolicy::allow()
    }
}

// ---------------------------------------------------------------------------
// Conditions
// ---------------------------------------------------------------------------

/// Whether `vars` holds a value other than `null` under `key`.
pub open spec fn present(vars: Seq<(Seq<char>, Json)>, key: Seq<char>) -> bool {
    map_get(vars, key) matches Some(j) && !(j is Null)
}

/// The meaning of a condition expression (unknown or malformed conditions pass).
pub open spec fn condition_holds(
    condition: Seq<char>,
    vars: Seq<(Seq<char>, Json)>,
    body_size: Option<usize>,
) -> bool {
    let cond = trimmed(condition, false);
    if cond.len() == 0 || cond == "true"@ {
        true
    } else if has_prefix(cond, "body_size"@) {
        let rest = trimmed(cond.skip("body_size"@.len() as int), false);
        if has_prefix(rest, "<="@) {
            match parse_usize(trimmed(rest.skip("<="@.len() as int), false)) {
                Some(limit) => match body_size {
                    Some(s) => s <= limit,
                    None => true,
                },
                None => true,
            }
        } else {
            true
        }
    } else if has_prefix(cond, "inputs."@) {
        let key_expr = cond.skip("inputs."@.len() as int);
        if has_suffix(key_expr, "!= null"@) {
            present(vars, trimmed(key_expr.take(key_expr.len() - "!= null"@.len()), false))
        } else {
            match split_once(key_expr, "=="@) {
                Some((k, e)) => match map_get(vars, trimmed(k, false)) {
                    Some(Json::Str(s)) => s == trimmed(trimmed(e, false), true),
                    _ => false,
                },
                None => present(vars, trimmed(key_expr, false)),
            }
        }
    } else {
        true
    }
}

fn key_present(vars: &JsonMap, key: &Vec<char>) -> (r: bool)
    ensures
        r == present(entries_model(vars@), key@),
{
    let k = string_from_chars(key);
    match obj_get(vars, k.as_str()) {
        Some(v) => !v.is_null(),
        None => false,
    }
}

/// A rule written `inputs.<key> != null` holds exactly when `vars` has `key`
/// with a value other than `null`: a missing key fails it, as a `null` does.
/// (The key is one word: not empty, no whitespace at either end.)
pub proof fn lemma_not_null_condition(
    key: Seq<char>,
    vars: Seq<(Seq<char>, Json)>,
    body_size: Option<usize>,
)
    requires
        key.len() > 0,
        !is_ws(key[0]),
        !is_ws(key.last()),
    ensures
        condition_holds("inputs."@ + key + " != null"@, vars, body_size) == (map_get(vars, key) matches Some(
            v,
        ) && !(v is Null)),
{
    reveal_strlit("inputs.");
    reveal_strlit(" != null");
    reveal_strlit("!= null");
    reveal_strlit("true");
    reveal_strlit("body_size");
    let c = "inputs."@ + key + " != null"@;
    assert(c[0] == 'i');
    assert(c.last() == 'l');
    reveal_with_fuel(trim_start, 2);
    reveal_with_fuel(trim_end, 2);
    assert(trim_start(c, false) == c);
    assert(trim_end(c, false) == c);
    assert(trimmed(c, false) == c);
    assert(c.len() != "true"@.len());
    assert(!has_prefix(c, "body_size"@)) by {
        if has_prefix(c, "body_size"@) {
            assert(c.subrange(0, 9)[0] == "body_size"@[0]);
        }
    }
    assert(c.subrange(0, 7) =~= "inputs."@);
    let key_expr = c.skip(7);
    assert(key_expr =~= key + " != null"@);
    assert(key_expr.subrange(key_expr.len() - 7, key_expr.len() as int) =~= "!= null"@);
    let k = key_expr.take(key_expr.len() - 7);
    assert(k =~= key.push(' '));
    assert(trim_start(k, false) == k) by {
        assert(k[0] == key[0]);
    }
    assert(k.drop_last() =~= key);
    assert(trim_end(k, false) == key) by {
        assert(is_ws(' '));
        assert(trim_end(key, false) == key);
    }
}

proof fn lemma_find_from_absent(s: Seq<char>, p: Seq<char>, i: int)
    requires
        p.len() > 0,
        !s.contains(p[0]),
    ensures
        find_from(s, p, i) is None,
    decreases s.len() + 1 - i,
{
    if !(i < 0 || i + p.len() > s.len()) {
        assert(s.subrange(i, i + p.len())[0] == s[i]);
        assert(s.contains(s[i]));
        lemma_find_from_absent(s, p, i + 1);
    }
}

/// The shorthand `inputs.<key>` means the same as `inputs.<key> != null`: it
/// holds exactly when `vars` has `key` with a value other than `null`. (The
/// key is one word without `=`: not empty, no whitespace at either end.)
pub proof fn lemma_present_condition(
    key: Seq<char>,
    vars: Seq<(Seq<char>, Json)>,
    body_size: Option<usize>,
)
    requires
        key.len() > 0,
        !is_ws(key[0]),
        !is_ws(key.last()),
        !key.contains('='),
    ensures
        condition_holds("inputs."@ + key, vars, body_size) == (map_get(vars, key) matches Some(v)
            && !(v is Null)),
{
    reveal_strlit("inputs.");
    reveal_strlit("!= null");
    reveal_strlit("==");
    reveal_strlit("true");
    reveal_strlit("body_size");
    let c = "inputs."@ + key;
    assert(c[0] == 'i');
    assert(c.last() == key.last());
    reveal_with_fuel(trim_start, 2);
    reveal_with_fuel(trim_end, 2);
    assert(trim_start(c, false) == c);
    assert(trim_end(c, false) == c);
    assert(c != "true"@) by {
        if c == "true"@ {
            assert(c[0] == "true"@[0]);
        }
    }
    assert(!has_prefix(c, "body_size"@)) by {
        if has_prefix(c, "body_size"@) {
            assert(c.subrange(0, 9)[0] == "body_size"@[0]);
        }
    }
    assert(c.subrange(0, 7) =~= "inputs."@);
    let key_expr = c.skip(7);
    assert(key_expr =~= key);
    assert(!has_suffix(key_expr, "!= null"@)) by {
        if has_suffix(key_expr, "!= null"@) {
            let n = key_expr.len();
            assert(key_expr.subrange(n - 7, n as int)[1] == '=');
            assert(key.contains(key[n - 6]));
        }
    }
    lemma_find_from_absent(key_expr, "=="@, 0);
    assert(trim_start(key, false) == key);
    assert(trim_end(key, false) == key);
}

/// Evaluates a condition expression against `vars` and `body_size`.
fn evaluate_condition(condition: &str, vars: &JsonMap, body_size: Option<usize>) -> (r: bool)
    ensures
        r == condition_holds(condition@, entries_model(vars@), body_size),
{
    let raw = chars_of(condition);
    let cond = trim_chars(&raw, false);
    let lit_true = chars_of("true");
    if cond.len() == 0 || crate::text::chars_eq(&cond, &lit_true) {
        return true;
    }
    let lit_body = chars_of("body_size");
    if starts_with(&cond, &lit_body) {
        let rest0 = sub_chars(&cond, lit_body.len(), cond.len());
        assert(rest0@ =~= cond@.skip("body_size"@.len() as int));
        let rest = trim_chars(&rest0, false);
        let lit_le = chars_of("<=");
        if starts_with(&rest, &lit_le) {
            let n0 = sub_chars(&rest, lit_le.len(), rest.len());
            assert(n0@ =~= rest@.skip("<="@.len() as int));
            let n_str = trim_chars(&n0, false);
            match parse_usize_chars(&n_str) {
                Some(limit) => {
                    return match body_size {
                        Some(s) => s <= limit,
                        None => true,
                    };
                },
                None => {
                    return true;
                },
            }
        }
        return true;
    }
    let lit_inputs = chars_of("inputs.");
    if starts_with(&cond, &lit_inputs) {
        let key_expr = sub_chars(&cond, lit_inputs.len(), cond.len());
        assert(key_expr@ =~= cond@.skip("inputs."@.len() as int));
        let lit_nn = chars_of("!= null");
        if ends_with(&key_expr, &lit_nn) {
            let k0 = sub_chars(&key_expr, 0, key_expr.len() - lit_nn.len());
            assert(k0@ =~= key_expr@.take(key_expr@.len() - "!= null"@.len()));
            let key = trim_chars(&k0, false);
            return key_present(vars, &key);
        }
        let lit_eq = chars_of("==");
        match split_once_chars(&key_expr, &lit_eq) {
            Some((k, e)) => {
                let key_v = trim_chars(&k, false);
                let e1 = trim_chars(&e, false);
                let expected = trim_chars(&e1, true);
                let key = string_from_chars(&key_v);
                match obj_get(vars, key.as_str()) {
                    Some(v) => match v.as_str() {
                        Some(s) => {
                            let sv = chars_of(s.as_str());
                            return crate::text::chars_eq(&sv, &expected);
                        },
                        None => {
                            return false;
                        },
                    },
                    None => {
                        return false;
                    },
                }
            },
            None => {
                let key = trim_chars(&key_expr, false);
                return key_present(vars, &key);
            },
        }
    }
    true
}

// ---------------------------------------------------------------------------
// Cascade
// ---------------------------------------------------------------------------

/// The reason recorded for a failing rule.
pub open spec fn failure_reason(r: RuleModel) -> Seq<char> {
    if r.reason.len() == 0 {
        "Rule "@ + r.id + " failed: "@ + r.condition
    } else {
        r.reason
    }
}

pub open spec fn pass_entry(r: RuleModel) -> TraceModel {
    TraceModel { level: r.level, rule: r.id, result: "PASS"@, reason: None }
}

pub open spec fn fail_entry(r: RuleModel) -> TraceModel {
    TraceModel { level: r.level, rule: r.id, result: "DENY"@, reason: Some(failure_reason(r)) }
}

/// `res` with `t` in front of its trace.
pub open spec fn with_trace_prefix(t: Seq<TraceModel>, res: ResultModel) -> ResultModel {
    ResultModel { trace: t + res.trace, ..res }
}

/// Evaluation of the rules in order.
pub open spec fn cascade(
    rules: Seq<RuleModel>,
    vars: Seq<(Seq<char>, Json)>,
    body_size: Option<usize>,
) -> ResultModel
    decreases rules.len(),
{
    if rules.len() == 0 {
        ResultModel { decision: "ALLOW"@, decided_by: None, reason: None, trace: Seq::empty() }
    } else {
        let r = rules[0];
        if condition_holds(r.condition, vars, body_size) {
            with_trace_prefix(seq![pass_entry(r)], cascade(rules.drop_first(), vars, body_size))
        } else if r.action == "DENY"@ {
            ResultModel {
                decision: "DENY"@,
                decided_by: Some(r.id),
                reason: Some(failure_reason(r)),
                trace: seq![fail_entry(r)],
            }
        } else {
            with_trace_prefix(seq![fail_entry(r)], cascade(rules.drop_first(), vars, body_size))
        }
    }
}

/// What `resolve` returns.
pub open spec fn spec_resolve(
    allow: bool,
    rules: Seq<RuleModel>,
    vars: Seq<(Seq<char>, Json)>,
    body_size: Option<usize>,
) -> ResultModel {
    if rules.len() == 0 {
        if allow {
            ResultModel {
                decision: "ALLOW"@,
                decided_by: None,
                reason: None,
                trace: seq![
                    TraceModel {
                        level: "global"@,
                        rule: "UBL_LEGACY_ALLOW"@,
                        result: "PASS"@,
                        reason: None,
                    },
                ],
            }
        } else {
            ResultModel {
                decision: "DENY"@,
                decided_by: Some("UBL_LEGACY_DENY"@),
                reason: Some("policy deny"@),
                trace: seq![
                    TraceModel {
                        level: "global"@,
                        rule: "UBL_LEGACY_DENY"@,
                        result: "DENY"@,
                        reason: Some("policy deny"@),
                    },
                ],
            }
        }
    } else {
        cascade(rules, vars, body_size)
    }
}

fn failure_reason_of(rule: &PolicyRule) -> (r: String)
    ensures
        r@ == failure_reason(rule@),
{
    if rule.reason.as_str().is_empty() {
        let mut out: Vec<char> = Vec::new();
        append_str(&mut out, "Rule ");
        append_str(&mut out, rule.id.as_str());
        append_str(&mut out, " failed: ");
        append_str(&mut out, rule.condition.as_str());
        assert(out@ =~= failure_reason(rule@));
        string_from_chars(&out)
    } else {
        rule.reason.clone()
    }
}

/// Evaluates the cascade policy against the given variables.
///
/// Rules are evaluated in order (global first, then tenant, then app). A
/// lower-level rule can never override a higher-level DENY. If no rules are
/// defined, the legacy `allow` boolean decides.
pub fn resolve(policy: &CascadePolicy, vars: &JsonMap, body_size: Option<usize>) -> (r:
    PolicyResult)
    ensures
        r@ == spec_resolve(policy.allow, rules_view(policy.rules@), entries_model(vars@), body_size),
{
    let ghost rules = rules_view(policy.rules@);
    let ghost vm = entries_model(vars@);
    if policy.rules.len() == 0 {
        let mut trace: Vec<PolicyTraceEntry> = Vec::new();
        if policy.allow {
            trace.push(
                PolicyTraceEntry {
                    level: "global".to_owned(),
                    rule: "UBL_LEGACY_ALLOW".to_owned(),
                    result: "PASS".to_owned(),
                    reason: None,
                },
            );
            let r = PolicyResult {
                decision: "ALLOW".to_owned(),
                decided_by: None,
                reason: None,
                policy_trace: trace,
            };
            assert(r@.trace =~= spec_resolve(policy.allow, rules, vm, body_size).trace);
            return r;
        } else {
            trace.push(
                PolicyTraceEntry {
                    level: "global".to_owned(),
                    rule: "UBL_LEGACY_DENY".to_owned(),
                    result: "DENY".to_owned(),
                    reason: Some("policy deny".to_owned()),
                },
            );
            let r = PolicyResult {
                decision: "DENY".to_owned(),
                decided_by: Some("UBL_LEGACY_DENY".to_owned()),
                reason: Some("policy deny".to_owned()),
                policy_trace: trace,
            };
            assert(r@.trace =~= spec_resolve(policy.allow, rules, vm, body_size).trace);
            return r;
        }
    }
    let mut trace: Vec<PolicyTraceEntry> = Vec::new();
    let mut i: usize = 0;
    assert(rules.skip(0) =~= rules);
    while i < policy.rules.len()
        invariant
            i <= policy.rules.len(),
            rules == rules_view(policy.rules@),
            vm == entries_model(vars@),
            cascade(rules, vm, body_size) == with_trace_prefix(
                traces_view(trace@),
                cascade(rules.skip(i as int), vm, body_size),
            ),
        decreases policy.rules.len() - i,
    {
        let rule = &policy.rules[i];
        let ghost rest = rules.skip(i as int);
        assert(rest[0] == rule@);
        assert(rest.drop_first() =~= rules.skip(i + 1));
        let pass = evaluate_condition(rule.condition.as_str(), vars, body_size);
        if pass {
            let ghost before = trace@;
            trace.push(
                PolicyTraceEntry {
                    level: rule.level.clone(),
                    rule: rule.id.clone(),
                    result: "PASS".to_owned(),
                    reason: None,
                },
            );
            assert(traces_view(trace@) =~= traces_view(before) + seq![pass_entry(rule@)]);
            proof {
                let x = cascade(rules.skip(i + 1), vm, body_size);
                assert(cascade(rest, vm, body_size) == with_trace_prefix(
                    seq![pass_entry(rule@)],
                    x,
                ));
                assert(traces_view(before) + (seq![pass_entry(rule@)] + x.trace) =~= traces_view(
                    trace@,
                ) + x.trace);
            }
        } else {
            let reason = failure_reason_of(rule);
            let ghost before = trace@;
            trace.push(
                PolicyTraceEntry {
                    level: rule.level.clone(),
                    rule: rule.id.clone(),
                    result: "DENY".to_owned(),
                    reason: Some(reason.clone()),
                },
            );
            assert(traces_view(trace@) =~= traces_view(before) + seq![fail_entry(rule@)]);
            if str_eq(rule.action.as_str(), "DENY") {
                let r = PolicyResult {
                    decision: "DENY".to_owned(),
                    decided_by: Some(rule.id.clone()),
                    reason: Some(reason),
                    policy_trace: trace,
                };
                assert(r@.trace =~= spec_resolve(policy.allow, rules, vm, body_size).trace);
                return r;
            }
            proof {
                let x = cascade(rules.skip(i + 1), vm, body_size);
                assert(cascade(rest, vm, body_size) == with_trace_prefix(
                    seq![fail_entry(rule@)],
                    x,
                ));
                assert(traces_view(before) + (seq![fail_entry(rule@)] + x.trace) =~= traces_view(
                    trace@,
                ) + x.trace);
            }
        }
        i = i + 1;
    }
    let r = PolicyResult {
        decision: "ALLOW".to_owned(),
        decided_by: None,
        reason: None,
        policy_trace: trace,
    };
    assert(rules.skip(i as int) =~= Seq::<RuleModel>::empty());
    assert(r@.trace =~= spec_resolve(policy.allow, rules, vm, body_size).trace);
    r
}

} // verus!
