//! The canonical form of JSON values: object keys in order, entries whose
//! value is `null` dropped, strings in Unicode Normalization Form C. Its
//! compact text, as UTF-8, is what content identifiers are computed over.
use vstd::prelude::*;
use vstd::utf8::encode_utf8;
use vstd::string::StrSliceExecFns;
use crate::digest::{nfc, spec_nfc};
use crate::error::Result;
use crate::json::{
    entries_model, json_wf, keys_distinct, keys_sorted, lemma_array_model, lemma_map_get_found,
    lemma_map_get_push, lemma_map_insert_sorted, lemma_map_insert_wf, lemma_object_model,
    lemma_sorted_unique, map_get, map_insert, obj_insert, text, values_model, Json, JsonValue,
};
use crate::text::string_from_chars;

verus! {

/// The canonical form of a JSON value.
pub open spec fn canon(j: Json) -> Json
    decreases j,
{
    match j {
        Json::Null => Json::Null,
        Json::Bool(b) => Json::Bool(b),
        Json::Num(n) => Json::Num(n),
        Json::Str(s) => Json::Str(spec_nfc(s)),
        Json::Arr(xs) => Json::Arr(canon_items(xs)),
        Json::Obj(es) => Json::Obj(canon_entries(es)),
    }
}

/// The canonical forms of array elements.
pub open spec fn canon_items(xs: Seq<Json>) -> Seq<Json>
    decreases xs,
{
    Seq::new(
        xs.len(),
        |i: int|
            if 0 <= i < xs.len() {
                canon(xs[i])
            } else {
                Json::Null
            },
    )
}

/// The canonical object: each entry whose value is not `null`, value in
/// canonical form, inserted in turn into an empty map.
pub open spec fn canon_entries(es: Seq<(Seq<char>, Json)>) -> Seq<(Seq<char>, Json)>
    decreases es,
{
    if es.len() == 0 {
        Seq::empty()
    } else if es.last().1 is Null {
        canon_entries(es.drop_last())
    } else {
        map_insert(canon_entries(es.drop_last()), es.last().0, canon(es.last().1))
    }
}

/// The bytes that identify a JSON value: the UTF-8 of its canonical text.
pub open spec fn spec_canonical_bytes(j: Json) -> Seq<u8> {
    encode_utf8(text(canon(j)))
}

/// The canonical form of any value is well formed: its objects are maps
/// with their keys in order.
pub proof fn lemma_canon_wf(j: Json)
    ensures
        json_wf(canon(j)),
    decreases j,
{
    match j {
        Json::Arr(xs) => {
            assert forall|i: int| #![trigger canon_items(xs)[i]] 0 <= i < xs.len() implies json_wf(
                canon_items(xs)[i],
            ) by {
                assert(decreases_to!(j => xs));
                assert(decreases_to!(xs => xs[i]));
                lemma_canon_wf(xs[i]);
            }
            assert(json_wf(Json::Arr(canon_items(xs))));
        },
        Json::Obj(es) => {
            lemma_canon_entries_wf(es);
        },
        _ => {},
    }
}

proof fn lemma_canon_entries_wf(es: Seq<(Seq<char>, Json)>)
    ensures
        json_wf(Json::Obj(canon_entries(es))),
    decreases es,
{
    if es.len() > 0 {
        lemma_canon_entries_wf(es.drop_last());
        if !(es.last().1 is Null) {
            assert(decreases_to!(es => es[es.len() - 1]));
            assert(decreases_to!(es[es.len() - 1] => es[es.len() - 1].1));
            lemma_canon_wf(es.last().1);
            lemma_map_insert_wf(canon_entries(es.drop_last()), es.last().0, canon(es.last().1));
        }
    }
}

/// The canonical form of `v`; it is well formed.
pub fn normalize_value(v: &JsonValue) -> (r: JsonValue)
    ensures
        r.model() == canon(v.model()),
        json_wf(r.model()),
    decreases v,
{
    proof {
        lemma_canon_wf(v.model());
    }
    match v {
        JsonValue::Null => JsonValue::Null,
        JsonValue::Bool(b) => JsonValue::Bool(*b),
        JsonValue::Number(n) => JsonValue::Number(*n),
        JsonValue::Str(s) => JsonValue::Str(nfc(s.as_str())),
        JsonValue::Array(a) => {
            let ghost xs = values_model(a@);
            let mut out: Vec<JsonValue> = Vec::new();
            let mut i: usize = 0;
            while i < a.len()
                invariant
                    i <= a.len(),
                    *v == JsonValue::Array(*a),
                    xs == values_model(a@),
                    out@.len() == i,
                    values_model(out@) =~= canon_items(xs).take(i as int),
                decreases a.len() - i,
            {
                proof {
                    assert(decreases_to!(a@ => a@[i as int]));
                    assert(decreases_to!(*a => a@));
                    assert(decreases_to!(*v => v->Array_0));
                }
                let x = normalize_value(&a[i]);
                let ghost prev = out@;
                out.push(x);
                proof {
                    assert forall|k: int| 0 <= k < i + 1 implies values_model(out@)[k]
                        == canon_items(xs)[k] by {
                        if k < i {
                            assert(values_model(prev)[k] == canon_items(xs).take(i as int)[k]);
                            assert(out@[k] == prev[k]);
                        }
                    }
                }
                i = i + 1;
            }
            proof {
                lemma_array_model(*a);
                lemma_array_model(out);
                assert(canon_items(xs).take(a.len() as int) =~= canon_items(xs));
                assert(values_model(out@) =~= canon_items(xs));
            }
            JsonValue::Array(out)
        },
        JsonValue::Object(o) => {
            let ghost es = entries_model(o@);
            let mut out: Vec<(String, JsonValue)> = Vec::new();
            let mut i: usize = 0;
            while i < o.len()
                invariant
                    i <= o.len(),
                    *v == JsonValue::Object(*o),
                    es == entries_model(o@),
                    entries_model(out@) == canon_entries(es.take(i as int)),
                decreases o.len() - i,
            {
                proof {
                    assert(es.take(i + 1).drop_last() =~= es.take(i as int));
                    assert(es.take(i + 1).last() == es[i as int]);
                }
                if !o[i].1.is_null() {
                    proof {
                        assert(decreases_to!(o@ => o@[i as int]));
                        assert(decreases_to!(o@[i as int] => o@[i as int].1));
                        assert(decreases_to!(*o => o@));
                        assert(decreases_to!(*v => v->Object_0));
                    }
                    let x = normalize_value(&o[i].1);
                    let key = o[i].0.clone();
                    obj_insert(&mut out, key, x);
                }
                i = i + 1;
            }
            proof {
                lemma_object_model(*o);
                lemma_object_model(out);
                assert(es.take(o.len() as int) =~= es);
            }
            JsonValue::Object(out)
        },
    }
}

/// The canonical text of `v`, as UTF-8 bytes.
pub fn canonical_bytes(v: &JsonValue) -> (r: Result<Vec<u8>>)
    ensures
        r matches Ok(b) && b@ == spec_canonical_bytes(v.model()),
{
    let norm = normalize_value(v);
    let s = crate::json::to_text(&norm);
    Ok(s.as_str().as_bytes_vec())
}


/// A `null` entry never changes the canonical form of an object, wherever it
/// stands, so neither its canonical bytes nor its CID.
pub proof fn lemma_canon_ignores_null(es: Seq<(Seq<char>, Json)>, i: int)
    requires
        0 <= i < es.len(),
        es[i].1 is Null,
    ensures
        canon(Json::Obj(es)) == canon(Json::Obj(es.remove(i))),
        spec_canonical_bytes(Json::Obj(es)) == spec_canonical_bytes(Json::Obj(es.remove(i))),
    decreases es.len(),
{
    lemma_canon_entries_ignore_null(es, i);
}

proof fn lemma_canon_entries_ignore_null(es: Seq<(Seq<char>, Json)>, i: int)
    requires
        0 <= i < es.len(),
        es[i].1 is Null,
    ensures
        canon_entries(es) == canon_entries(es.remove(i)),
    decreases es.len(),
{
    if i == es.len() - 1 {
        assert(es.remove(i) =~= es.drop_last());
    } else {
        let d = es.drop_last();
        lemma_canon_entries_ignore_null(d, i);
        assert(es.remove(i).drop_last() =~= d.remove(i));
        assert(es.remove(i).last() == es.last());
    }
}

/// The canonical form of an object has no `null` entry.
pub proof fn lemma_canon_entries_no_null(es: Seq<(Seq<char>, Json)>)
    ensures
        forall|k: int| 0 <= k < canon_entries(es).len() ==> !(#[trigger] canon_entries(es)[k].1 is Null),
    decreases es.len(),
{
    if es.len() > 0 {
        lemma_canon_entries_no_null(es.drop_last());
        if !(es.last().1 is Null) {
            crate::json::lemma_map_insert_members(
                canon_entries(es.drop_last()),
                es.last().0,
                canon(es.last().1),
            );
            let r = canon_entries(es);
            assert forall|k: int| 0 <= k < r.len() implies !(#[trigger] r[k].1 is Null) by {
                if r[k] != (es.last().0, canon(es.last().1)) {
                    let j = choose|j: int|
                        0 <= j < canon_entries(es.drop_last()).len() && r[k] == canon_entries(
                            es.drop_last(),
                        )[j];
                    assert(!(canon_entries(es.drop_last())[j].1 is Null));
                }
            }
        }
    }
}

/// What the canonical form of an object holds under `k`: the canonical
/// form of the entry's value; nothing when the entry is missing or `null`.
pub open spec fn canon_get(es: Seq<(Seq<char>, Json)>, k: Seq<char>) -> Option<Json> {
    match map_get(es, k) {
        Some(v) => if v is Null {
            None
        } else {
            Some(canon(v))
        },
        None => None,
    }
}

/// The canonical entries of an object with distinct keys are sorted by key
/// and hold, under each key, what `canon_get` says.
pub proof fn lemma_canon_entries_map(es: Seq<(Seq<char>, Json)>)
    requires
        keys_distinct(es),
    ensures
        keys_sorted(canon_entries(es)),
        forall|k: Seq<char>| #[trigger] map_get(canon_entries(es), k) == canon_get(es, k),
    decreases es.len(),
{
    if es.len() == 0 {
        assert forall|k: Seq<char>| #[trigger] map_get(canon_entries(es), k) == canon_get(es, k) by {
        }
    } else {
        let d = es.drop_last();
        let e = es.last();
        assert forall|i: int, j: int| 0 <= i < j < d.len() implies #[trigger] d[i].0 != #[trigger] d[j].0 by {
            assert(d[i] == es[i] && d[j] == es[j]);
        }
        lemma_canon_entries_map(d);
        assert(es =~= d.push(e));
        let ce = canon_entries(d);
        if !(e.1 is Null) {
            lemma_map_insert_sorted(ce, e.0, canon(e.1));
        }
        assert forall|k: Seq<char>| #[trigger] map_get(canon_entries(es), k) == canon_get(es, k) by {
            lemma_map_get_push(d, e, k);
            if k == e.0 {
                lemma_map_get_found(d, k);
                if map_get(d, k) is Some {
                    let i = choose|i: int| 0 <= i < d.len() && d[i].0 == k && d[i].1 == map_get(d, k)->Some_0;
                    assert(es[i].0 == es[es.len() - 1].0);
                }
                assert(map_get(ce, k) == canon_get(d, k));
            } else {
                assert(map_get(ce, k) == canon_get(d, k));
            }
        }
    }
}

/// The canonical form of an object does not depend on the order of its
/// entries: two objects with distinct keys that hold the same value under
/// every key have the same canonical form, hence the same canonical bytes
/// and the same content identifier.
pub proof fn lemma_canon_key_order(es1: Seq<(Seq<char>, Json)>, es2: Seq<(Seq<char>, Json)>)
    requires
        keys_distinct(es1),
        keys_distinct(es2),
        forall|k: Seq<char>| #[trigger] map_get(es1, k) == map_get(es2, k),
    ensures
        canon(Json::Obj(es1)) == canon(Json::Obj(es2)),
        spec_canonical_bytes(Json::Obj(es1)) == spec_canonical_bytes(Json::Obj(es2)),
{
    lemma_canon_entries_map(es1);
    lemma_canon_entries_map(es2);
    assert forall|k: Seq<char>| #[trigger] map_get(canon_entries(es1), k) == map_get(canon_entries(es2), k) by {
        assert(map_get(es1, k) == map_get(es2, k));
    }
    lemma_sorted_unique(canon_entries(es1), canon_entries(es2));
}

} // verus!
