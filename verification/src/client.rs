//! The command-line client of the HTTP service: where requests go, how a
//! receipt file is checked against its body CID, and how the receipts of the
//! registry are grouped for listing.
use vstd::prelude::*;
use vstd::string::StringSliceAdditionalSpecFns;
use vstd::utf8::encode_utf8;
use crate::audit::{json_str, parents_of, strings_in};
use crate::cid::{cid_b3, spec_cid};
use crate::error::strings_view;
use crate::json::{entries_model, json_get, text, to_bytes, Json, JsonMap, JsonValue};
use crate::policy::opt_view;
use crate::text::{append_str, chars_of, seq_lt, str_eq, string_from_chars};

verus! {

/// `s` without its trailing `/` characters.
pub open spec fn trim_slashes(s: Seq<char>) -> Seq<char>
    decreases s.len(),
{
    if s.len() > 0 && s.last() == '/' {
        trim_slashes(s.drop_last())
    } else {
        s
    }
}

/// Where the client sends its requests, and the bearer token it sends.
#[derive(Debug, Clone)]
pub struct Client {
    pub base: String,
    pub token: Option<String>,
}

impl Client {
    /// A client of the service at `base` (trailing slashes dropped).
    pub fn new(base: &str, token: Option<&str>) -> (r: Self)
        ensures
            r.base@ == trim_slashes(base@),
            opt_view(r.token) == crate::receipt::opt_str_view(token),
    {
        let mut v = chars_of(base);
        let mut n: usize = v.len();
        assert(v@.take(n as int) =~= v@);
        while n > 0 && v[n - 1] == '/'
            invariant
                n <= v@.len(),
                v@ == base@,
                trim_slashes(base@) == trim_slashes(v@.take(n as int)),
            decreases n,
        {
            assert(v@.take(n as int).drop_last() =~= v@.take(n - 1));
            n = n - 1;
        }
        let kept = crate::text::sub_chars(&v, 0, n);
        assert(kept@ =~= v@.take(n as int));
        Client {
            base: string_from_chars(&kept),
            token: match token {
                Some(t) => Some(t.to_owned()),
                None => None,
            },
        }
    }

    /// The URL of `path` on the service.
    pub fn url(&self, path: &str) -> (r: String)
        ensures
            r@ == self.base@ + path@,
    {
        let mut out: Vec<char> = Vec::new();
        append_str(&mut out, self.base.as_str());
        append_str(&mut out, path);
        string_from_chars(&out)
    }
}

// ---------------------------------------------------------------------------
// Checking a receipt file
// ---------------------------------------------------------------------------

/// What checking a receipt's body CID finds.
#[derive(Debug, Clone)]
pub struct CidCheck {
    pub claimed: String,
    /// The CID of the body's compact JSON text
    pub computed: String,
    pub matches: bool,
    pub receipt_type: Option<String>,
    /// The string parents, in order
    pub parents: Vec<String>,
    pub has_signature: bool,
}

/// Checks the body CID a receipt claims against the CID of its body.
pub fn check_receipt_cid(receipt: &JsonValue) -> (r: Result<CidCheck, String>)
    ensures
        match json_str(json_get(receipt.model(), "body_cid"@)) {
            None => r matches Err(m) && m@ == "missing body_cid field"@,
            Some(claimed) => match json_get(receipt.model(), "body"@) {
                None => r matches Err(m) && m@ == "missing body field"@,
                Some(body) => r matches Ok(c) && {
                    let computed = spec_cid(encode_utf8(text(body)));
                    &&& c.claimed@ == claimed
                    &&& c.computed@ == computed
                    &&& c.matches == (computed == claimed)
                    &&& opt_view(c.receipt_type) == json_str(json_get(receipt.model(), "t"@))
                    &&& strings_view(c.parents@) == parents_of(receipt.model())
                    &&& c.has_signature == json_get(receipt.model(), "sig"@) is Some
                },
            },
        },
{
    let claimed = match receipt.get("body_cid") {
        Some(x) => match x.as_str() {
            Some(s) => s.clone(),
            None => {
                return Err("missing body_cid field".to_owned());
            },
        },
        None => {
            return Err("missing body_cid field".to_owned());
        },
    };
    let body = match receipt.get("body") {
        Some(b) => b,
        None => {
            return Err("missing body field".to_owned());
        },
    };
    let bytes = to_bytes(body);
    let computed = cid_b3(bytes.as_slice());
    let matches = str_eq(computed.as_str(), claimed.as_str());
    let receipt_type = match receipt.get("t") {
        Some(x) => match x.as_str() {
            Some(s) => Some(s.clone()),
            None => None,
        },
        None => None,
    };
    let parents = match receipt.get("parents") {
        Some(JsonValue::Array(xs)) => string_items(xs),
        _ => Vec::new(),
    };
    assert(parents@.len() == 0 ==> strings_view(parents@) =~= Seq::<Seq<char>>::empty());
    let has_signature = receipt.get("sig").is_some();
    Ok(CidCheck { claimed, computed, matches, receipt_type, parents, has_signature })
}

/// The strings among the items of an array, in order.
fn string_items(xs: &Vec<JsonValue>) -> (r: Vec<String>)
    ensures
        strings_view(r@) == strings_in(crate::json::values_model(xs@)),
{
    let ghost vm = crate::json::values_model(xs@);
    let mut out: Vec<String> = Vec::new();
    let mut i: usize = 0;
    assert(vm.take(0) =~= Seq::<Json>::empty());
    assert(strings_view(out@) =~= Seq::<Seq<char>>::empty());
    while i < xs.len()
        invariant
            i <= xs.len(),
            vm == crate::json::values_model(xs@),
            strings_view(out@) == strings_in(vm.take(i as int)),
        decreases xs.len() - i,
    {
        proof {
            assert(vm.take(i + 1).drop_last() =~= vm.take(i as int));
            assert(vm.take(i + 1).last() == xs@[i as int].model());
        }
        match xs[i].as_str() {
            Some(s) => {
                let ghost prev = out@;
                out.push(s.clone());
                assert(strings_view(out@) =~= strings_view(prev).push(s@));
            },
            None => {},
        }
        i = i + 1;
    }
    assert(vm.take(xs.len() as int) =~= vm);
    out
}

// ---------------------------------------------------------------------------
// Listing the registry
// ---------------------------------------------------------------------------

/// One receipt in a listing: its CID and the decision in its body ("" when none).
pub open spec fn listed(cid: Seq<char>, rc: Json) -> (Seq<char>, Seq<char>) {
    (
        cid,
        match json_get(rc, "body"@) {
            Some(b) => match json_str(json_get(b, "decision"@)) {
                Some(d) => d,
                None => ""@,
            },
            None => ""@,
        },
    )
}

/// The type a receipt is listed under ("unknown" when it has none).
pub open spec fn listed_type(rc: Json) -> Seq<char> {
    match json_str(json_get(rc, "t"@)) {
        Some(t) => t,
        None => "unknown"@,
    }
}

pub type GroupModel = Seq<(Seq<char>, Seq<(Seq<char>, Seq<char>)>)>;

/// The index of the group under `key`.
pub open spec fn group_index(g: GroupModel, key: Seq<char>) -> Option<int>
    decreases g.len(),
{
    if g.len() == 0 {
        None
    } else if g[0].0 == key {
        Some(0)
    } else {
        match group_index(g.drop_first(), key) {
            Some(i) => Some(i + 1),
            None => None,
        }
    }
}

/// Where a new group goes: before the first key that sorts after it.
pub open spec fn group_pos(g: GroupModel, key: Seq<char>) -> int
    decreases g.len(),
{
    if g.len() == 0 || seq_lt(key, g[0].0) {
        0
    } else {
        group_pos(g.drop_first(), key) + 1
    }
}

/// `item` added at the end of the group under `key`, or in a new group kept
/// in key order.
pub open spec fn group_add(g: GroupModel, key: Seq<char>, item: (Seq<char>, Seq<char>)) -> GroupModel {
    match group_index(g, key) {
        Some(i) => g.update(i, (key, g[i].1.push(item))),
        None => g.insert(group_pos(g, key), (key, seq![item])),
    }
}

/// The receipts of a registry (cid → receipt) grouped by type, types in
/// order, receipts in registry order within a type.
pub open spec fn group_by_type(reg: Seq<(Seq<char>, Json)>) -> GroupModel
    decreases reg.len(),
{
    if reg.len() == 0 {
        Seq::empty()
    } else {
        group_add(
            group_by_type(reg.drop_last()),
            listed_type(reg.last().1),
            listed(reg.last().0, reg.last().1),
        )
    }
}

pub open spec fn groups_view(g: Seq<(String, Vec<(String, String)>)>) -> GroupModel {
    g.map_values(
        |e: (String, Vec<(String, String)>)|
            (e.0@, e.1@.map_values(|p: (String, String)| (p.0@, p.1@))),
    )
}

proof fn lemma_group_index(g: GroupModel, key: Seq<char>)
    ensures
        match group_index(g, key) {
            Some(i) => 0 <= i < g.len() && g[i].0 == key && forall|k: int|
                0 <= k < i ==> #[trigger] g[k].0 != key,
            None => forall|k: int| 0 <= k < g.len() ==> #[trigger] g[k].0 != key,
        },
    decreases g.len(),
{
    if g.len() > 0 && g[0].0 != key {
        let d = g.drop_first();
        lemma_group_index(d, key);
        assert forall|k: int| 0 < k < g.len() implies g[k] == d[k - 1] by {}
    }
}

proof fn lemma_group_index_at(g: GroupModel, key: Seq<char>, i: int)
    requires
        0 <= i < g.len(),
        g[i].0 == key,
        forall|k: int| 0 <= k < i ==> #[trigger] g[k].0 != key,
    ensures
        group_index(g, key) == Some(i),
{
    lemma_group_index(g, key);
    match group_index(g, key) {
        Some(j) => {
            if j < i {
                assert(g[j].0 != key);
            } else if j > i {
                assert(g[i].0 != key);
            }
        },
        None => {
            assert(g[i].0 != key);
        },
    }
}

proof fn lemma_group_pos(g: GroupModel, key: Seq<char>)
    ensures
        0 <= group_pos(g, key) <= g.len(),
    decreases g.len(),
{
    if g.len() > 0 && !seq_lt(key, g[0].0) {
        lemma_group_pos(g.drop_first(), key);
    }
}

fn listed_item(cid: &String, rc: &JsonValue) -> (r: (String, String))
    ensures
        (r.0@, r.1@) == listed(cid@, rc.model()),
{
    let decision = match rc.get("body") {
        Some(b) => match b.get("decision") {
            Some(d) => match d.as_str() {
                Some(s) => s.clone(),
                None => "".to_owned(),
            },
            None => "".to_owned(),
        },
        None => "".to_owned(),
    };
    (cid.clone(), decision)
}

fn add_to_group(groups: &mut Vec<(String, Vec<(String, String)>)>, key: String, item: (String, String))
    ensures
        groups_view(final(groups)@) == group_add(groups_view(old(groups)@), key@, (item.0@, item.1@)),
{
    let ghost g0 = groups_view(groups@);
    proof {
        lemma_group_index(g0, key@);
        lemma_group_pos(g0, key@);
    }
    let kc = chars_of(key.as_str());
    let mut i: usize = 0;
    while i < groups.len()
        invariant
            i <= groups.len(),
            groups@ == old(groups)@,
            g0 == groups_view(groups@),
            kc@ == key@,
            forall|k: int| 0 <= k < i ==> #[trigger] g0[k].0 != key@,
        decreases groups.len() - i,
    {
        assert(g0[i as int].0 == groups@[i as int].0@);
        if str_eq(groups[i].0.as_str(), key.as_str()) {
            proof {
                lemma_group_index_at(g0, key@, i as int);
            }
            let ghost prev = groups@;
            let mut entry: (String, Vec<(String, String)>) = (String::new(), Vec::new());
            std::mem::swap(&mut entry, &mut groups[i]);
            let ghost old_items = entry.1@;
            entry.1.push(item);
            groups.set(i, entry);
            proof {
                assert(entry.1@ == old_items.push(item));
                assert forall|j: int| 0 <= j < groups@.len() implies groups_view(groups@)[j]
                    == group_add(g0, key@, (item.0@, item.1@))[j] by {
                    if j != i {
                        assert(groups@[j] == prev[j]);
                    } else {
                        assert(groups_view(groups@)[j].1 =~= g0[j].1.push((item.0@, item.1@)));
                    }
                }
                assert(groups_view(groups@) =~= group_add(g0, key@, (item.0@, item.1@)));
            }
            return;
        }
        i = i + 1;
    }
    proof {
        assert forall|k: int| 0 <= k < g0.len() implies #[trigger] g0[k].0 != key@ by {}
        lemma_group_index(g0, key@);
        if group_index(g0, key@) is Some {
            let j = group_index(g0, key@)->Some_0;
            assert(g0[j].0 != key@);
        }
    }
    let mut p: usize = 0;
    assert(g0.skip(0) =~= g0);
    while p < groups.len()
        invariant
            p <= groups.len(),
            groups@ == old(groups)@,
            g0 == groups_view(groups@),
            kc@ == key@,
            group_pos(g0, key@) == p + group_pos(g0.skip(p as int), key@),
        ensures
            p <= groups.len(),
            group_pos(g0, key@) == p + group_pos(g0.skip(p as int), key@),
            p < groups.len() ==> seq_lt(key@, g0[p as int].0),
        decreases groups.len() - p,
    {
        let other = chars_of(groups[p].0.as_str());
        assert(g0.skip(p as int)[0] == g0[p as int]);
        assert(g0[p as int].0 == groups@[p as int].0@);
        if crate::text::chars_lt(&kc, &other) {
            break;
        }
        assert(g0.skip(p as int).drop_first() =~= g0.skip(p + 1));
        p = p + 1;
    }
    proof {
        lemma_group_pos(g0.skip(p as int), key@);
        if p == groups.len() {
            assert(g0.skip(p as int).len() == 0);
        } else {
            assert(g0.skip(p as int)[0] == g0[p as int]);
        }
        assert(group_pos(g0, key@) == p);
    }
    let ghost prev = groups@;
    let mut items: Vec<(String, String)> = Vec::new();
    items.push(item);
    let ghost im = items@;
    groups.insert(p, (key, items));
    proof {
        assert(im.map_values(|q: (String, String)| (q.0@, q.1@)) =~= seq![(item.0@, item.1@)]);
        assert forall|j: int| 0 <= j < groups@.len() implies groups_view(groups@)[j] == group_add(
            g0,
            key@,
            (item.0@, item.1@),
        )[j] by {
            if j < p {
                assert(groups@[j] == prev[j]);
            } else if j > p {
                assert(groups@[j] == prev[j - 1]);
            }
        }
        assert(groups_view(groups@) =~= group_add(g0, key@, (item.0@, item.1@)));
    }
}

/// The receipts of a registry (cid → receipt) grouped by type for listing.
pub fn group_receipts(registry: &JsonMap) -> (r: Vec<(String, Vec<(String, String)>)>)
    ensures
        groups_view(r@) == group_by_type(entries_model(registry@)),
{
    let ghost rm = entries_model(registry@);
    let mut groups: Vec<(String, Vec<(String, String)>)> = Vec::new();
    let mut i: usize = 0;
    assert(rm.take(0) =~= Seq::<(Seq<char>, Json)>::empty());
    assert(groups_view(groups@) =~= Seq::<(Seq<char>, Seq<(Seq<char>, Seq<char>)>)>::empty());
    while i < registry.len()
        invariant
            i <= registry.len(),
            rm == entries_model(registry@),
            groups_view(groups@) == group_by_type(rm.take(i as int)),
        decreases registry.len() - i,
    {
        proof {
            assert(rm.take(i + 1).drop_last() =~= rm.take(i as int));
            assert(rm.take(i + 1).last() == rm[i as int]);
            assert(rm[i as int] == (registry@[i as int].0@, registry@[i as int].1.model()));
        }
        let t = match registry[i].1.get("t") {
            Some(x) => match x.as_str() {
                Some(s) => s.clone(),
                None => "unknown".to_owned(),
            },
            None => "unknown".to_owned(),
        };
        let item = listed_item(&registry[i].0, &registry[i].1);
        add_to_group(&mut groups, t, item);
        i = i + 1;
    }
    assert(rm.take(registry.len() as int) =~= rm);
    groups
}

// ---------------------------------------------------------------------------
// Listing
// ---------------------------------------------------------------------------

/// How a receipt type is named in listings.
pub open spec fn type_label(t: Seq<char>) -> Seq<char> {
    if t == "ubl/wa"@ {
        "Write-Ahead"@
    } else if t == "ubl/transition"@ {
        "Transition"@
    } else if t == "ubl/wf"@ {
        "Write-Final"@
    } else {
        t
    }
}

/// The name of a receipt type in listings.
pub fn receipt_type_label(t: &str) -> (r: String)
    ensures
        r@ == type_label(t@),
{
    if str_eq(t, "ubl/wa") {
        "Write-Ahead".to_owned()
    } else if str_eq(t, "ubl/transition") {
        "Transition".to_owned()
    } else if str_eq(t, "ubl/wf") {
        "Write-Final".to_owned()
    } else {
        t.to_owned()
    }
}

/// The first 32 bytes of a CID text (all of it when shorter), as listings
/// show it; the prefix is text whenever byte 32 begins a character.
pub fn short_cid(cid: &str) -> (r: Vec<u8>)
    ensures
        r@ == cid.spec_bytes().take(
            if cid.spec_bytes().len() < 32 {
                cid.spec_bytes().len() as int
            } else {
                32
            },
        ),
{
    let b = cid.as_bytes();
    let end: usize = if b.len() < 32 {
        b.len()
    } else {
        32
    };
    let mut out: Vec<u8> = Vec::new();
    let mut i: usize = 0;
    while i < end
        invariant
            i <= end <= b.len(),
            out@ == b@.take(i as int),
        decreases end - i,
    {
        out.push(b[i]);
        i = i + 1;
        assert(out@ =~= b@.take(i as int));
    }
    out
}

} // verus!
