//! JSON values, their mathematical model, and their compact text encoding
//! (the encoding `serde_json::to_string` produces for the same value).
use vstd::prelude::*;
use crate::text::{chars_lt, chars_of, seq_lt, str_eq, string_from_chars};
use vstd::utf8::encode_utf8;
use vstd::string::StrSliceExecFns;

verus! {

/// A JSON value. Objects keep their entries in order; the map operations below
/// keep them sorted by key with no key twice, as `serde_json::Map` does.
/// Numbers are integers: floating point has no place in the canonical form.
#[derive(Debug, PartialEq)]
pub enum JsonValue {
    Null,
    Bool(bool),
    Number(i128),
    Str(String),
    Array(Vec<JsonValue>),
    Object(Vec<(String, JsonValue)>),
}

/// The entries of a JSON object.
pub type JsonMap = Vec<(String, JsonValue)>;

/// The mathematical model of a JSON value.
pub enum Json {
    Null,
    Bool(bool),
    Num(int),
    Str(Seq<char>),
    Arr(Seq<Json>),
    Obj(Seq<(Seq<char>, Json)>),
}

impl JsonValue {
    pub open spec fn model(self) -> Json
        decreases self,
    {
        match self {
            JsonValue::Null => Json::Null,
            JsonValue::Bool(b) => Json::Bool(b),
            JsonValue::Number(n) => Json::Num(n as int),
            JsonValue::Str(s) => Json::Str(s@),
            JsonValue::Array(a) => Json::Arr(values_model(a@)),
            JsonValue::Object(o) => Json::Obj(entries_model(o@)),
        }
    }
}

/// The models of a sequence of values.
pub open spec fn values_model(a: Seq<JsonValue>) -> Seq<Json>
    decreases a,
{
    Seq::new(
        a.len(),
        |i: int|
            if 0 <= i < a.len() {
                a[i].model()
            } else {
                Json::Null
            },
    )
}

/// The models of the entries of an object.
pub open spec fn entries_model(o: Seq<(String, JsonValue)>) -> Seq<(Seq<char>, Json)>
    decreases o,
{
    Seq::new(
        o.len(),
        |i: int|
            if 0 <= i < o.len() {
                (o[i].0@, o[i].1.model())
            } else {
                (Seq::empty(), Json::Null)
            },
    )
}

pub proof fn lemma_array_model(a: Vec<JsonValue>)
    ensures
        JsonValue::Array(a).model() == Json::Arr(values_model(a@)),
{
}

pub proof fn lemma_object_model(o: Vec<(String, JsonValue)>)
    ensures
        JsonValue::Object(o).model() == Json::Obj(entries_model(o@)),
{
}

impl JsonValue {
    /// A copy of this value.
    pub fn duplicate(&self) -> (r: JsonValue)
        ensures
            r.model() == self.model(),
        decreases self,
    {
        match self {
            JsonValue::Null => JsonValue::Null,
            JsonValue::Bool(b) => JsonValue::Bool(*b),
            JsonValue::Number(n) => JsonValue::Number(*n),
            JsonValue::Str(s) => JsonValue::Str(s.clone()),
            JsonValue::Array(a) => {
                let mut out: Vec<JsonValue> = Vec::new();
                let mut i: usize = 0;
                while i < a.len()
                    invariant
                        i <= a.len(),
                        *self == JsonValue::Array(*a),
                        out@.len() == i,
                        values_model(out@) =~= values_model(a@).take(i as int),
                    decreases a.len() - i,
                {
                    proof {
                        assert(decreases_to!(a@ => a@[i as int]));
                        assert(decreases_to!(*a => a@));
                        assert(decreases_to!(*self => self->Array_0));
                    }
                    let x = a[i].duplicate();
                    let ghost prev = out@;
                    out.push(x);
                    proof {
                        assert forall|k: int| 0 <= k < i + 1 implies values_model(out@)[k]
                            == values_model(a@)[k] by {
                            if k < i {
                                assert(values_model(prev)[k] == values_model(a@).take(i as int)[k]);
                                assert(out@[k] == prev[k]);
                            }
                        }
                    }
                    i = i + 1;
                }
                proof {
                    lemma_array_model(*a);
                    lemma_array_model(out);
                    assert(values_model(a@).take(a.len() as int) =~= values_model(a@));
                    assert(values_model(out@) =~= values_model(a@));
                }
                JsonValue::Array(out)
            },
            JsonValue::Object(o) => {
                let mut out: Vec<(String, JsonValue)> = Vec::new();
                let mut i: usize = 0;
                while i < o.len()
                    invariant
                        i <= o.len(),
                        *self == JsonValue::Object(*o),
                        out@.len() == i,
                        entries_model(out@) =~= entries_model(o@).take(i as int),
                    decreases o.len() - i,
                {
                    proof {
                        assert(decreases_to!(o@ => o@[i as int]));
                        assert(decreases_to!(o@[i as int] => o@[i as int].1));
                        assert(decreases_to!(*o => o@));
                        assert(decreases_to!(*self => self->Object_0));
                    }
                    let x = o[i].1.duplicate();
                    let key = o[i].0.clone();
                    let ghost prev = out@;
                    out.push((key, x));
                    proof {
                        assert forall|k: int| 0 <= k < i + 1 implies entries_model(out@)[k]
                            == entries_model(o@)[k] by {
                            if k < i {
                                assert(entries_model(prev)[k] == entries_model(o@).take(
                                    i as int,
                                )[k]);
                                assert(out@[k] == prev[k]);
                            }
                        }
                    }
                    i = i + 1;
                }
                proof {
                    lemma_object_model(*o);
                    lemma_object_model(out);
                    assert(entries_model(o@).take(o.len() as int) =~= entries_model(o@));
                    assert(entries_model(out@) =~= entries_model(o@));
                }
                JsonValue::Object(out)
            },
        }
    }
}

// ---------------------------------------------------------------------------
// Object entries as a map
// ---------------------------------------------------------------------------

/// The value of the first entry under `key`.
pub open spec fn map_get(es: Seq<(Seq<char>, Json)>, key: Seq<char>) -> Option<Json>
    decreases es.len(),
{
    if es.len() == 0 {
        None
    } else if es[0].0 == key {
        Some(es[0].1)
    } else {
        map_get(es.drop_first(), key)
    }
}

/// The value under `key` of an object; nothing for other values.
pub open spec fn json_get(j: Json, key: Seq<char>) -> Option<Json> {
    match j {
        Json::Obj(es) => map_get(es, key),
        _ => None,
    }
}

/// `serde_json::Map::insert`: the entry under `key` takes `val`; a new key goes
/// before the first key that sorts after it.
pub open spec fn map_insert(es: Seq<(Seq<char>, Json)>, key: Seq<char>, val: Json) -> Seq<
    (Seq<char>, Json),
>
    decreases es.len(),
{
    if es.len() == 0 {
        seq![(key, val)]
    } else if es[0].0 == key {
        seq![(key, val)] + es.drop_first()
    } else if seq_lt(key, es[0].0) {
        seq![(key, val)] + es
    } else {
        seq![es[0]] + map_insert(es.drop_first(), key, val)
    }
}

/// The value stored under `key` in `o`, if any.
pub fn obj_get<'a>(o: &'a JsonMap, key: &str) -> (r: Option<&'a JsonValue>)
    ensures
        match map_get(entries_model(o@), key@) {
            Some(j) => r matches Some(v) && v.model() == j,
            None => r is None,
        },
{
    let ghost es = entries_model(o@);
    let mut i: usize = 0;
    assert(es.skip(0) =~= es);
    while i < o.len()
        invariant
            i <= o.len(),
            es == entries_model(o@),
            map_get(es, key@) == map_get(es.skip(i as int), key@),
        decreases o.len() - i,
    {
        assert(es.skip(i as int)[0] == es[i as int]);
        if str_eq(o[i].0.as_str(), key) {
            return Some(&o[i].1);
        }
        assert(es.skip(i as int).drop_first() =~= es.skip(i + 1));
        i = i + 1;
    }
    None
}

/// Inserts `val` under `key`, as `serde_json::Map::insert` does.
pub fn obj_insert(o: &mut JsonMap, key: String, val: JsonValue)
    ensures
        entries_model(final(o)@) == map_insert(entries_model(old(o)@), key@, val.model()),
        keys_sorted(entries_model(old(o)@)) ==> keys_sorted(entries_model(final(o)@)),
        json_wf(Json::Obj(entries_model(old(o)@))) && json_wf(val.model()) ==> json_wf(
            Json::Obj(entries_model(final(o)@)),
        ),
{
    proof {
        lemma_map_insert_wf(entries_model(o@), key@, val.model());
    }
    let ghost es = entries_model(o@);
    let ghost target = map_insert(es, key@, val.model());
    let kc = chars_of(key.as_str());
    let mut i: usize = 0;
    assert(es.skip(0) =~= es);
    assert(es.take(0) =~= Seq::<(Seq<char>, Json)>::empty());
    while i < o.len()
        invariant
            i <= o.len(),
            o@ == old(o)@,
            es == entries_model(o@),
            kc@ == key@,
            target == map_insert(es, key@, val.model()),
            target == es.take(i as int) + map_insert(es.skip(i as int), key@, val.model()),
            keys_sorted(es) ==> keys_sorted(target),
            json_wf(Json::Obj(es)) && json_wf(val.model()) ==> json_wf(Json::Obj(target)),
        decreases o.len() - i,
    {
        assert(es.skip(i as int)[0] == es[i as int]);
        let ek = chars_of(o[i].0.as_str());
        if str_eq(o[i].0.as_str(), key.as_str()) {
            let ghost prev = o@;
            o.set(i, (key, val));
            proof {
                assert(es.skip(i as int).drop_first() =~= es.skip(i + 1));
                assert forall|k: int| 0 <= k < o@.len() implies entries_model(o@)[k] == target[k] by {
                    if k != i {
                        assert(o@[k] == prev[k]);
                    }
                }
                assert(entries_model(o@) =~= target);
            }
            return;
        }
        if chars_lt(&kc, &ek) {
            let ghost prev = o@;
            o.insert(i, (key, val));
            proof {
                assert forall|k: int| 0 <= k < o@.len() implies entries_model(o@)[k] == target[k] by {
                    if k < i {
                        assert(o@[k] == prev[k]);
                    } else if k > i {
                        assert(o@[k] == prev[k - 1]);
                    }
                }
                assert(entries_model(o@) =~= target);
            }
            return;
        }
        proof {
            assert(es.skip(i as int).drop_first() =~= es.skip(i + 1));
            assert(es.take(i + 1) =~= es.take(i as int).push(es[i as int]));
            assert(target =~= es.take(i + 1) + map_insert(es.skip(i + 1), key@, val.model()));
        }
        i = i + 1;
    }
    let ghost prev = o@;
    o.push((key, val));
    proof {
        assert(es.take(prev.len() as int) =~= es);
        assert(es.skip(prev.len() as int) =~= Seq::<(Seq<char>, Json)>::empty());
        assert forall|k: int| 0 <= k < o@.len() implies entries_model(o@)[k] == target[k] by {
            if k < prev.len() {
                assert(o@[k] == prev[k]);
            }
        }
        assert(entries_model(o@) =~= target);
    }
}

/// A copy of the entries of an object.
pub fn copy_entries(o: &JsonMap) -> (r: JsonMap)
    ensures
        entries_model(r@) == entries_model(o@),
{
    let mut out: Vec<(String, JsonValue)> = Vec::new();
    let mut i: usize = 0;
    while i < o.len()
        invariant
            i <= o.len(),
            out@.len() == i,
            entries_model(out@) =~= entries_model(o@).take(i as int),
        decreases o.len() - i,
    {
        let x = o[i].1.duplicate();
        let key = o[i].0.clone();
        let ghost prev = out@;
        out.push((key, x));
        proof {
            assert forall|k: int| 0 <= k < i + 1 implies entries_model(out@)[k] == entries_model(
                o@,
            )[k] by {
                if k < i {
                    assert(entries_model(prev)[k] == entries_model(o@).take(i as int)[k]);
                    assert(out@[k] == prev[k]);
                }
            }
        }
        i = i + 1;
    }
    assert(entries_model(o@).take(o.len() as int) =~= entries_model(o@));
    out
}

impl JsonValue {
    /// The string inside a `Str` value.
    pub fn as_str(&self) -> (r: Option<&String>)
        ensures
            match self.model() {
                Json::Str(s) => r matches Some(x) && x@ == s,
                _ => r is None,
            },
    {
        match self {
            JsonValue::Str(s) => Some(s),
            _ => None,
        }
    }

    /// The value under `key` when this is an object (`serde_json::Value::get`).
    pub fn get(&self, key: &str) -> (r: Option<&JsonValue>)
        ensures
            match json_get(self.model(), key@) {
                Some(j) => r matches Some(x) && x.model() == j,
                None => r is None,
            },
    {
        match self {
            JsonValue::Object(o) => obj_get(o, key),
            _ => None,
        }
    }

    /// The boolean inside a `Bool` value.
    pub fn as_bool(&self) -> (r: Option<bool>)
        ensures
            match self.model() {
                Json::Bool(b) => r == Some(b),
                _ => r is None,
            },
    {
        match self {
            JsonValue::Bool(b) => Some(*b),
            _ => None,
        }
    }

    /// Whether the value is `null`.
    pub fn is_null(&self) -> (r: bool)
        ensures
            r == (self.model() is Null),
    {
        match self {
            JsonValue::Null => true,
            _ => false,
        }
    }

    /// A string value.
    pub fn from_str(s: &str) -> (r: JsonValue)
        ensures
            r.model() == Json::Str(s@),
    {
        JsonValue::Str(s.to_owned())
    }
}

// ---------------------------------------------------------------------------
// Text encoding
// ---------------------------------------------------------------------------

/// Lower-case hexadecimal digit of `n < 16`.
pub open spec fn hex_digit(n: int) -> char {
    if n < 10 {
        (n + 48) as char
    } else {
        (n + 87) as char
    }
}

/// Decimal digits of a natural number.
pub open spec fn nat_text(n: nat) -> Seq<char>
    decreases n,
{
    if n < 10 {
        seq![(n + 48) as char]
    } else {
        nat_text(n / 10) + seq![((n % 10) + 48) as char]
    }
}

/// Decimal text of an integer.
pub open spec fn int_text(n: int) -> Seq<char> {
    if n < 0 {
        seq!['-'] + nat_text((-n) as nat)
    } else {
        nat_text(n as nat)
    }
}

/// How one character is written inside a JSON string.
pub open spec fn escape_char(c: char) -> Seq<char> {
    let u = c as u32;
    if c == '"' {
        seq!['\\', '"']
    } else if c == '\\' {
        seq!['\\', '\\']
    } else if u == 8 {
        seq!['\\', 'b']
    } else if u == 9 {
        seq!['\\', 't']
    } else if u == 10 {
        seq!['\\', 'n']
    } else if u == 12 {
        seq!['\\', 'f']
    } else if u == 13 {
        seq!['\\', 'r']
    } else if u < 32 {
        seq!['\\', 'u', '0', '0', hex_digit((u / 16) as int), hex_digit((u % 16) as int)]
    } else {
        seq![c]
    }
}

/// The escaped characters of a string.
pub open spec fn escape(s: Seq<char>) -> Seq<char>
    decreases s.len(),
{
    if s.len() == 0 {
        Seq::empty()
    } else {
        escape(s.drop_last()) + escape_char(s.last())
    }
}

/// A JSON string literal.
pub open spec fn quote(s: Seq<char>) -> Seq<char> {
    seq!['"'] + escape(s) + seq!['"']
}

/// The compact JSON text of a value.
pub open spec fn text(j: Json) -> Seq<char>
    decreases j,
{
    match j {
        Json::Null => seq!['n', 'u', 'l', 'l'],
        Json::Bool(b) => if b {
            seq!['t', 'r', 'u', 'e']
        } else {
            seq!['f', 'a', 'l', 's', 'e']
        },
        Json::Num(n) => int_text(n),
        Json::Str(s) => quote(s),
        Json::Arr(xs) => seq!['['] + items_text(xs) + seq![']'],
        Json::Obj(es) => seq!['{'] + entries_text(es) + seq!['}'],
    }
}

/// The elements of an array, separated by commas.
pub open spec fn items_text(xs: Seq<Json>) -> Seq<char>
    decreases xs,
{
    if xs.len() == 0 {
        Seq::empty()
    } else if xs.len() == 1 {
        text(xs[0])
    } else {
        items_text(xs.drop_last()) + seq![','] + text(xs.last())
    }
}

/// The entries of an object, `"key":value`, separated by commas.
pub open spec fn entries_text(es: Seq<(Seq<char>, Json)>) -> Seq<char>
    decreases es,
{
    if es.len() == 0 {
        Seq::empty()
    } else if es.len() == 1 {
        quote(es[0].0) + seq![':'] + text(es[0].1)
    } else {
        entries_text(es.drop_last()) + seq![','] + quote(es.last().0) + seq![':'] + text(
            es.last().1,
        )
    }
}

fn digit_char(d: u32) -> (c: char)
    requires
        d < 16,
    ensures
        c == hex_digit(d as int),
{
    let b: u8 = if d < 10 {
        (d + 48) as u8
    } else {
        (d + 87) as u8
    };
    b as char
}

/// Appends the decimal digits of `n`.
pub fn write_nat(n: u128, out: &mut Vec<char>)
    ensures
        final(out)@ == old(out)@ + nat_text(n as nat),
    decreases n,
{
    if n >= 10 {
        write_nat(n / 10, out);
    }
    let d: u32 = (n % 10) as u32;
    out.push(digit_char(d));
    proof {
        if n >= 10 {
            assert(out@ =~= old(out)@ + nat_text(n as nat));
        } else {
            assert(out@ =~= old(out)@ + nat_text(n as nat));
        }
    }
}

/// Appends the decimal text of `n`.
pub fn write_int(n: i128, out: &mut Vec<char>)
    ensures
        final(out)@ == old(out)@ + int_text(n as int),
{
    if n < 0 {
        out.push('-');
        let m: u128 = ((-(n + 1)) as u128) + 1;
        write_nat(m, out);
        assert(out@ =~= old(out)@ + int_text(n as int));
    } else {
        write_nat(n as u128, out);
    }
}

fn write_escaped_char(c: char, out: &mut Vec<char>)
    ensures
        final(out)@ == old(out)@ + escape_char(c),
{
    let u = c as u32;
    if c == '"' {
        out.push('\\');
        out.push('"');
    } else if c == '\\' {
        out.push('\\');
        out.push('\\');
    } else if u == 8 {
        out.push('\\');
        out.push('b');
    } else if u == 9 {
        out.push('\\');
        out.push('t');
    } else if u == 10 {
        out.push('\\');
        out.push('n');
    } else if u == 12 {
        out.push('\\');
        out.push('f');
    } else if u == 13 {
        out.push('\\');
        out.push('r');
    } else if u < 32 {
        out.push('\\');
        out.push('u');
        out.push('0');
        out.push('0');
        out.push(digit_char(u / 16));
        out.push(digit_char(u % 16));
    } else {
        out.push(c);
    }
    assert(out@ =~= old(out)@ + escape_char(c));
}

/// Appends `s` as a JSON string literal.
pub fn write_quoted(s: &str, out: &mut Vec<char>)
    ensures
        final(out)@ == old(out)@ + quote(s@),
{
    out.push('"');
    let ghost start = out@;
    for c in it: s.chars()
        invariant
            it.seq() == s@,
            out@ == start + escape(s@.take(it.index() as int)),
    {
        proof {
            let k = it.index() as int;
            assert(s@.take(k + 1).drop_last() =~= s@.take(k));
        }
        write_escaped_char(c, out);
    }
    assert(s@.take(s@.len() as int) =~= s@);
    out.push('"');
    assert(out@ =~= old(out)@ + quote(s@));
}

/// Appends the compact JSON text of `v`.
pub fn write_json(v: &JsonValue, out: &mut Vec<char>)
    ensures
        final(out)@ == old(out)@ + text(v.model()),
    decreases v,
{
    match v {
        JsonValue::Null => {
            out.push('n');
            out.push('u');
            out.push('l');
            out.push('l');
            assert(out@ =~= old(out)@ + text(v.model()));
        },
        JsonValue::Bool(b) => {
            if *b {
                out.push('t');
                out.push('r');
                out.push('u');
                out.push('e');
            } else {
                out.push('f');
                out.push('a');
                out.push('l');
                out.push('s');
                out.push('e');
            }
            assert(out@ =~= old(out)@ + text(v.model()));
        },
        JsonValue::Number(n) => {
            write_int(*n, out);
        },
        JsonValue::Str(s) => {
            write_quoted(s.as_str(), out);
        },
        JsonValue::Array(a) => {
            proof {
                lemma_array_model(*a);
            }
            let ghost xs = values_model(a@);
            out.push('[');
            let ghost start = out@;
            let mut i: usize = 0;
            while i < a.len()
                invariant
                    i <= a.len(),
                    *v == JsonValue::Array(*a),
                    xs == values_model(a@),
                    out@ == start + items_text(xs.take(i as int)),
                decreases a.len() - i,
            {
                if i > 0 {
                    out.push(',');
                }
                proof {
                    assert(decreases_to!(a@ => a@[i as int]));
                    assert(decreases_to!(*a => a@));
                    assert(decreases_to!(*v => v->Array_0));
                }
                write_json(&a[i], out);
                proof {
                    assert(xs.take(i + 1).drop_last() =~= xs.take(i as int));
                    assert(xs.take(i + 1).last() == a@[i as int].model());
                    if i == 0 {
                        assert(xs.take(1)[0] == a@[0].model());
                    }
                }
                i = i + 1;
            }
            assert(xs.take(a.len() as int) =~= xs);
            out.push(']');
            assert(out@ =~= old(out)@ + text(v.model()));
        },
        JsonValue::Object(o) => {
            proof {
                lemma_object_model(*o);
            }
            let ghost es = entries_model(o@);
            out.push('{');
            let ghost start = out@;
            let mut i: usize = 0;
            while i < o.len()
                invariant
                    i <= o.len(),
                    *v == JsonValue::Object(*o),
                    es == entries_model(o@),
                    out@ == start + entries_text(es.take(i as int)),
                decreases o.len() - i,
            {
                if i > 0 {
                    out.push(',');
                }
                let ghost before = out@;
                write_quoted(o[i].0.as_str(), out);
                out.push(':');
                proof {
                    assert(decreases_to!(o@ => o@[i as int]));
                    assert(decreases_to!(o@[i as int] => o@[i as int].1));
                    assert(decreases_to!(*o => o@));
                    assert(decreases_to!(*v => v->Object_0));
                }
                write_json(&o[i].1, out);
                proof {
                    assert(es.take(i + 1).drop_last() =~= es.take(i as int));
                    assert(es.take(i + 1).last() == (o@[i as int].0@, o@[i as int].1.model()));
                    if i == 0 {
                        assert(out@ =~= start + entries_text(es.take(i + 1)));
                    } else {
                        assert(out@ =~= start + entries_text(es.take(i + 1)));
                    }
                }
                i = i + 1;
            }
            assert(es.take(o.len() as int) =~= es);
            out.push('}');
            assert(out@ =~= old(out)@ + text(v.model()));
        },
    }
}

/// The compact JSON text of `v` (what `serde_json::to_string` gives).
pub fn to_text(v: &JsonValue) -> (r: String)
    ensures
        r@ == text(v.model()),
{
    let mut out: Vec<char> = Vec::new();
    write_json(v, &mut out);
    assert(out@ =~= text(v.model()));
    string_from_chars(&out)
}

/// The UTF-8 bytes of the compact JSON text of `v` (what `serde_json::to_vec` gives).
pub fn to_bytes(v: &JsonValue) -> (r: Vec<u8>)
    ensures
        r@ == encode_utf8(text(v.model())),
{
    let s = to_text(v);
    s.as_str().as_bytes_vec()
}


/// Every entry after an insert is the inserted one or an entry from before.
pub proof fn lemma_map_insert_members(es: Seq<(Seq<char>, Json)>, key: Seq<char>, val: Json)
    ensures
        forall|k: int|
            0 <= k < map_insert(es, key, val).len() ==> #[trigger] map_insert(es, key, val)[k] == (
            key,
            val,
        ) || exists|j: int| 0 <= j < es.len() && map_insert(es, key, val)[k] == es[j],
    decreases es.len(),
{
    let r = map_insert(es, key, val);
    if es.len() > 0 {
        let d = es.drop_first();
        lemma_map_insert_members(d, key, val);
        assert forall|k: int| 0 <= k < r.len() implies #[trigger] r[k] == (key, val) || exists|j: int|
            0 <= j < es.len() && r[k] == es[j] by {
            if es[0].0 == key {
                if k > 0 {
                    assert(r[k] == es[k]);
                }
            } else if seq_lt(key, es[0].0) {
                if k > 0 {
                    assert(r[k] == es[k - 1]);
                }
            } else {
                if k == 0 {
                    assert(r[0] == es[0]);
                } else {
                    let rd = map_insert(d, key, val);
                    assert(r[k] == rd[k - 1]);
                    if rd[k - 1] != (key, val) {
                        let j = choose|j: int| 0 <= j < d.len() && rd[k - 1] == d[j];
                        assert(d[j] == es[j + 1]);
                    }
                }
            }
        }
    }
}


// ---------------------------------------------------------------------------
// Objects as maps
// ---------------------------------------------------------------------------

/// A JSON value of the shape a `serde_json::Value` has: every object, at
/// every depth, is a map with its keys in order (so no key twice).
pub open spec fn json_wf(j: Json) -> bool
    decreases j,
{
    match j {
        Json::Arr(xs) => forall|i: int| #![trigger xs[i]] 0 <= i < xs.len() ==> json_wf(xs[i]),
        Json::Obj(es) => keys_sorted(es) && forall|i: int|
            #![trigger es[i]]
            0 <= i < es.len() ==> json_wf(es[i].1),
        _ => true,
    }
}

/// The keys of `es` strictly increase.
pub open spec fn keys_sorted(es: Seq<(Seq<char>, Json)>) -> bool {
    forall|i: int, j: int| 0 <= i < j < es.len() ==> seq_lt(#[trigger] es[i].0, #[trigger] es[j].0)
}

/// No key of `es` occurs twice.
pub open spec fn keys_distinct(es: Seq<(Seq<char>, Json)>) -> bool {
    forall|i: int, j: int| 0 <= i < j < es.len() ==> #[trigger] es[i].0 != #[trigger] es[j].0
}

/// What a lookup finds is an entry under that key; nothing is found only
/// when no entry has the key.
pub proof fn lemma_map_get_found(es: Seq<(Seq<char>, Json)>, key: Seq<char>)
    ensures
        match map_get(es, key) {
            Some(v) => exists|i: int| 0 <= i < es.len() && es[i].0 == key && es[i].1 == v,
            None => forall|i: int| 0 <= i < es.len() ==> es[i].0 != key,
        },
    decreases es.len(),
{
    if es.len() > 0 && es[0].0 != key {
        lemma_map_get_found(es.drop_first(), key);
        match map_get(es.drop_first(), key) {
            Some(v) => {
                let i = choose|i: int|
                    0 <= i < es.drop_first().len() && es.drop_first()[i].0 == key
                        && es.drop_first()[i].1 == v;
                assert(es[i + 1] == es.drop_first()[i]);
            },
            None => {
                assert forall|i: int| 0 <= i < es.len() implies es[i].0 != key by {
                    if i > 0 {
                        assert(es[i] == es.drop_first()[i - 1]);
                    }
                }
            },
        }
    } else if es.len() > 0 {
        assert(es[0].0 == key && es[0].1 == map_get(es, key)->Some_0);
    }
}

/// With distinct keys, the lookup of an entry's key finds that entry.
pub proof fn lemma_map_get_at(es: Seq<(Seq<char>, Json)>, i: int)
    requires
        0 <= i < es.len(),
        keys_distinct(es),
    ensures
        map_get(es, es[i].0) == Some(es[i].1),
    decreases es.len(),
{
    if i > 0 {
        let d = es.drop_first();
        assert(es[0].0 != es[i].0);
        assert forall|a: int, b: int| 0 <= a < b < d.len() implies #[trigger] d[a].0 != #[trigger] d[b].0 by {
            assert(d[a] == es[a + 1] && d[b] == es[b + 1]);
        }
        assert(d[i - 1] == es[i]);
        lemma_map_get_at(d, i - 1);
    }
}

/// Sorted keys are distinct.
pub proof fn lemma_sorted_distinct(es: Seq<(Seq<char>, Json)>)
    requires
        keys_sorted(es),
    ensures
        keys_distinct(es),
{
    assert forall|i: int, j: int| 0 <= i < j < es.len() implies #[trigger] es[i].0 != #[trigger] es[j].0 by {
        crate::text::lemma_seq_lt_irreflexive(es[i].0);
    }
}

/// A lookup in `es` with one more entry at the end.
pub proof fn lemma_map_get_push(es: Seq<(Seq<char>, Json)>, e: (Seq<char>, Json), key: Seq<char>)
    ensures
        map_get(es.push(e), key) == (if map_get(es, key) is Some {
            map_get(es, key)
        } else if e.0 == key {
            Some(e.1)
        } else {
            None::<Json>
        }),
    decreases es.len(),
{
    reveal_with_fuel(map_get, 2);
    let p = es.push(e);
    if es.len() > 0 {
        assert(p[0] == es[0]);
        assert(p.drop_first() =~= es.drop_first().push(e));
        lemma_map_get_push(es.drop_first(), e, key);
        if es[0].0 != key {
            assert(map_get(p, key) == map_get(es.drop_first().push(e), key));
            assert(map_get(es, key) == map_get(es.drop_first(), key));
        }
    } else {
        assert(p[0] == e);
        assert(p.drop_first() =~= Seq::<(Seq<char>, Json)>::empty());
        assert(map_get(Seq::<(Seq<char>, Json)>::empty(), key) is None);
    }
}

/// `map_insert` on sorted keys keeps them sorted, finds the value under its
/// key, and leaves every other key's lookup as it was.
pub proof fn lemma_map_insert_sorted(es: Seq<(Seq<char>, Json)>, key: Seq<char>, val: Json)
    requires
        keys_sorted(es),
    ensures
        keys_sorted(map_insert(es, key, val)),
        map_get(map_insert(es, key, val), key) == Some(val),
        forall|k: Seq<char>| k != key ==> #[trigger] map_get(map_insert(es, key, val), k) == map_get(es, k),
    decreases es.len(),
{
    let r = map_insert(es, key, val);
    if es.len() == 0 {
        assert forall|k: Seq<char>| k != key implies #[trigger] map_get(r, k) == map_get(es, k) by {
            assert(r.drop_first() =~= es);
        }
    } else if es[0].0 == key {
        assert(r.drop_first() =~= es.drop_first());
        assert forall|i: int, j: int| 0 <= i < j < r.len() implies seq_lt(#[trigger] r[i].0, #[trigger] r[j].0) by {
            assert(r[j] == es[j]);
            if i > 0 {
                assert(r[i] == es[i]);
            }
        }
        assert forall|k: Seq<char>| k != key implies #[trigger] map_get(r, k) == map_get(es, k) by {
            assert(r[0].0 == key);
        }
    } else if seq_lt(key, es[0].0) {
        assert(r.drop_first() =~= es);
        assert forall|i: int, j: int| 0 <= i < j < r.len() implies seq_lt(#[trigger] r[i].0, #[trigger] r[j].0) by {
            assert(r[j] == es[j - 1]);
            if i > 0 {
                assert(r[i] == es[i - 1]);
            } else if j - 1 > 0 {
                crate::text::lemma_seq_lt_transitive(key, es[0].0, es[j - 1].0);
            }
        }
        assert forall|k: Seq<char>| k != key implies #[trigger] map_get(r, k) == map_get(es, k) by {
            assert(r.drop_first() == es);
        }
    } else {
        let d = es.drop_first();
        assert forall|i: int, j: int| 0 <= i < j < d.len() implies seq_lt(#[trigger] d[i].0, #[trigger] d[j].0) by {
            assert(d[i] == es[i + 1] && d[j] == es[j + 1]);
        }
        lemma_map_insert_sorted(d, key, val);
        lemma_map_insert_members(d, key, val);
        crate::text::lemma_seq_lt_total(key, es[0].0);
        let rd = map_insert(d, key, val);
        assert(r.drop_first() =~= rd);
        assert forall|i: int, j: int| 0 <= i < j < r.len() implies seq_lt(#[trigger] r[i].0, #[trigger] r[j].0) by {
            assert(r[j] == rd[j - 1]);
            if i > 0 {
                assert(r[i] == rd[i - 1]);
            } else {
                assert(r[0] == es[0]);
                if rd[j - 1] != (key, val) {
                    let m = choose|m: int| 0 <= m < d.len() && rd[j - 1] == d[m];
                    assert(d[m] == es[m + 1]);
                }
            }
        }
        assert forall|k: Seq<char>| k != key implies #[trigger] map_get(r, k) == map_get(es, k) by {
            assert(r[0] == es[0]);
            if es[0].0 != k {
                assert(map_get(rd, k) == map_get(d, k));
            }
        }
    }
}

/// A lookup skips the entries before the first one under the key.
pub proof fn lemma_map_get_skip(es: Seq<(Seq<char>, Json)>, key: Seq<char>, n: int)
    requires
        0 <= n < es.len(),
        forall|i: int| 0 <= i < n ==> #[trigger] es[i].0 != key,
        es[n].0 == key,
    ensures
        map_get(es, key) == Some(es[n].1),
    decreases n,
{
    if n > 0 {
        let d = es.drop_first();
        assert forall|i: int| 0 <= i < n - 1 implies #[trigger] d[i].0 != key by {
            assert(d[i] == es[i + 1]);
        }
        lemma_map_get_skip(d, key, n - 1);
    }
}

/// After an insert, a lookup of the key finds the inserted value, whatever
/// the order of the entries before.
pub proof fn lemma_map_insert_get(es: Seq<(Seq<char>, Json)>, key: Seq<char>, val: Json)
    ensures
        map_get(map_insert(es, key, val), key) == Some(val),
    decreases es.len(),
{
    let r = map_insert(es, key, val);
    if es.len() > 0 && es[0].0 != key && !seq_lt(key, es[0].0) {
        lemma_map_insert_get(es.drop_first(), key, val);
        assert(r.drop_first() =~= map_insert(es.drop_first(), key, val));
    }
}

/// Inserting a well-formed value into a well-formed object keeps it well formed.
pub proof fn lemma_map_insert_wf(es: Seq<(Seq<char>, Json)>, key: Seq<char>, val: Json)
    ensures
        keys_sorted(es) ==> keys_sorted(map_insert(es, key, val)),
        json_wf(Json::Obj(es)) && json_wf(val) ==> json_wf(Json::Obj(map_insert(es, key, val))),
{
    if keys_sorted(es) {
        lemma_map_insert_sorted(es, key, val);
        lemma_map_insert_members(es, key, val);
        if json_wf(Json::Obj(es)) && json_wf(val) {
            let r = map_insert(es, key, val);
            assert forall|i: int| #![trigger r[i]] 0 <= i < r.len() implies json_wf(r[i].1) by {
                if r[i] != (key, val) {
                    let j = choose|j: int| 0 <= j < es.len() && r[i] == es[j];
                    assert(es[j] == r[i]);
                }
            }
        }
    }
}

/// Two objects with sorted keys that look up alike are the same.
pub proof fn lemma_sorted_unique(a: Seq<(Seq<char>, Json)>, b: Seq<(Seq<char>, Json)>)
    requires
        keys_sorted(a),
        keys_sorted(b),
        forall|k: Seq<char>| #[trigger] map_get(a, k) == map_get(b, k),
    ensures
        a == b,
    decreases a.len() + b.len(),
{
    lemma_sorted_distinct(a);
    lemma_sorted_distinct(b);
    if a.len() == 0 {
        if b.len() > 0 {
            lemma_map_get_at(b, 0);
            assert(map_get(a, b[0].0) is None);
        }
        assert(a =~= b);
    } else if b.len() == 0 {
        lemma_map_get_at(a, 0);
        assert(map_get(b, a[0].0) is None);
    } else {
        lemma_map_get_at(a, 0);
        lemma_map_get_at(b, 0);
        let ka = a[0].0;
        let kb = b[0].0;
        if ka != kb {
            crate::text::lemma_seq_lt_total(ka, kb);
            lemma_map_get_found(b, ka);
            lemma_map_get_found(a, kb);
            if seq_lt(ka, kb) {
                let j = choose|j: int| 0 <= j < b.len() && b[j].0 == ka && b[j].1 == a[0].1;
                assert(j > 0);
                assert(seq_lt(b[0].0, b[j].0));
                crate::text::lemma_seq_lt_asymmetric(ka, kb);
            } else {
                let j = choose|j: int| 0 <= j < a.len() && a[j].0 == kb && a[j].1 == b[0].1;
                assert(j > 0);
                assert(seq_lt(a[0].0, a[j].0));
                crate::text::lemma_seq_lt_asymmetric(kb, ka);
            }
        }
        assert(a[0] == b[0]);
        let da = a.drop_first();
        let db = b.drop_first();
        assert forall|i: int, j: int| 0 <= i < j < da.len() implies seq_lt(#[trigger] da[i].0, #[trigger] da[j].0) by {
            assert(da[i] == a[i + 1] && da[j] == a[j + 1]);
        }
        assert forall|i: int, j: int| 0 <= i < j < db.len() implies seq_lt(#[trigger] db[i].0, #[trigger] db[j].0) by {
            assert(db[i] == b[i + 1] && db[j] == b[j + 1]);
        }
        assert forall|k: Seq<char>| #[trigger] map_get(da, k) == map_get(db, k) by {
            if k != ka {
                assert(map_get(a, k) == map_get(da, k));
                assert(map_get(b, k) == map_get(db, k));
            } else {
                lemma_map_get_found(da, k);
                lemma_map_get_found(db, k);
                if map_get(da, k) is Some {
                    let i = choose|i: int| 0 <= i < da.len() && da[i].0 == k && da[i].1 == map_get(da, k)->Some_0;
                    assert(a[i + 1] == da[i]);
                    assert(a[0].0 != a[i + 1].0);
                }
                if map_get(db, k) is Some {
                    let i = choose|i: int| 0 <= i < db.len() && db[i].0 == k && db[i].1 == map_get(db, k)->Some_0;
                    assert(b[i + 1] == db[i]);
                    assert(b[0].0 != b[i + 1].0);
                }
            }
        }
        lemma_sorted_unique(da, db);
        assert(a =~= seq![a[0]] + da);
        assert(b =~= seq![b[0]] + db);
    }
}

} // verus!
