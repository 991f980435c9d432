//! Deterministic binding of caller variables to a grammar's declared inputs.
use vstd::prelude::*;
use crate::error::{strings_view, Result, RuntimeError};
use crate::json::{
    entries_model, keys_sorted, lemma_map_insert_sorted, map_get, map_insert, obj_get, obj_insert,
    Json, JsonMap,
};

verus! {

/// The first pass of binding: inputs found by name, in order, and the names
/// of the inputs not found.
pub open spec fn bind_by_name(vars: Seq<(Seq<char>, Json)>, inputs: Seq<(Seq<char>, Json)>) -> (
    Seq<(Seq<char>, Json)>,
    Seq<Seq<char>>,
)
    decreases inputs.len(),
{
    if inputs.len() == 0 {
        (Seq::empty(), Seq::empty())
    } else {
        let (bound, missing) = bind_by_name(vars, inputs.drop_last());
        let k = inputs.last().0;
        match map_get(vars, k) {
            Some(v) => (map_insert(bound, k, v), missing),
            None => (bound, missing.push(k)),
        }
    }
}

/// The keys of a map, in order.
pub open spec fn keys_of(es: Seq<(Seq<char>, Json)>) -> Seq<Seq<char>> {
    es.map_values(|e: (Seq<char>, Json)| e.0)
}

/// What binding yields: by name when every input is found; otherwise, when
/// there is exactly one input and one variable, that variable under the
/// input's name; otherwise the missing names and the available ones.
pub open spec fn spec_bind(vars: Seq<(Seq<char>, Json)>, inputs: Seq<(Seq<char>, Json)>) -> core::result::Result<
    Seq<(Seq<char>, Json)>,
    (Seq<Seq<char>>, Seq<Seq<char>>),
> {
    let (bound, missing) = bind_by_name(vars, inputs);
    if missing.len() == 0 {
        Ok(bound)
    } else if inputs.len() == 1 && vars.len() == 1 {
        Ok(map_insert(bound, inputs[0].0, vars[0].1))
    } else {
        Err((missing, keys_of(vars)))
    }
}

/// An input that is not found by name is among the missing ones.
proof fn lemma_missing_input(vars: Seq<(Seq<char>, Json)>, inputs: Seq<(Seq<char>, Json)>, i: int)
    requires
        0 <= i < inputs.len(),
        map_get(vars, inputs[i].0) is None,
    ensures
        bind_by_name(vars, inputs).1.contains(inputs[i].0),
    decreases inputs.len(),
{
    let d = inputs.drop_last();
    if i < inputs.len() - 1 {
        assert(d[i] == inputs[i]);
        lemma_missing_input(vars, d, i);
        let j = choose|j: int| 0 <= j < bind_by_name(vars, d).1.len() && bind_by_name(vars, d).1[j]
            == inputs[i].0;
        let m = bind_by_name(vars, inputs).1;
        assert(m[j] == inputs[i].0);
    } else {
        let m = bind_by_name(vars, inputs).1;
        assert(m[m.len() - 1] == inputs[i].0);
    }
}

/// The first pass binds each input found by name to the variable of that
/// name, with the bound keys in order, and misses an input only when no
/// variable has its name.
proof fn lemma_bind_by_name_bound(vars: Seq<(Seq<char>, Json)>, inputs: Seq<(Seq<char>, Json)>)
    ensures
        keys_sorted(bind_by_name(vars, inputs).0),
        forall|i: int|
            0 <= i < inputs.len() && map_get(vars, #[trigger] inputs[i].0) is Some ==> map_get(
                bind_by_name(vars, inputs).0,
                inputs[i].0,
            ) == map_get(vars, inputs[i].0),
        (forall|i: int| 0 <= i < inputs.len() ==> map_get(vars, #[trigger] inputs[i].0) is Some)
            ==> bind_by_name(vars, inputs).1.len() == 0,
    decreases inputs.len(),
{
    if inputs.len() > 0 {
        let d = inputs.drop_last();
        lemma_bind_by_name_bound(vars, d);
        let (bound, missing) = bind_by_name(vars, d);
        let k = inputs.last().0;
        if map_get(vars, k) is Some {
            lemma_map_insert_sorted(bound, k, map_get(vars, k)->Some_0);
        }
        assert forall|i: int|
            0 <= i < inputs.len() && map_get(vars, #[trigger] inputs[i].0) is Some implies map_get(
            bind_by_name(vars, inputs).0,
            inputs[i].0,
        ) == map_get(vars, inputs[i].0) by {
            if i < inputs.len() - 1 {
                assert(d[i] == inputs[i]);
            }
        }
        if forall|i: int| 0 <= i < inputs.len() ==> map_get(vars, #[trigger] inputs[i].0) is Some {
            assert forall|i: int| 0 <= i < d.len() implies map_get(vars, #[trigger] d[i].0) is Some by {
                assert(d[i] == inputs[i]);
            }
            assert(map_get(vars, inputs[inputs.len() - 1].0) is Some);
        }
    }
}

/// Binding by name: when every input is the name of a variable, binding
/// succeeds, and each input's name holds that variable's value, the keys in
/// order.
pub proof fn lemma_bind_by_name(vars: Seq<(Seq<char>, Json)>, inputs: Seq<(Seq<char>, Json)>)
    requires
        forall|i: int| 0 <= i < inputs.len() ==> map_get(vars, #[trigger] inputs[i].0) is Some,
    ensures
        spec_bind(vars, inputs) matches Ok(b) && keys_sorted(b) && forall|i: int|
            0 <= i < inputs.len() ==> map_get(b, #[trigger] inputs[i].0) == map_get(vars, inputs[i].0),
{
    lemma_bind_by_name_bound(vars, inputs);
}

/// Binding falls back to one-to-one only for exactly one input and exactly
/// one variable: when an input is not found by name and there are several
/// variables (or none), or several inputs, binding fails, naming among the
/// missing inputs the one not found, and listing every variable's key.
pub proof fn lemma_bind_fails_unless_one_to_one(
    vars: Seq<(Seq<char>, Json)>,
    inputs: Seq<(Seq<char>, Json)>,
    i: int,
)
    requires
        0 <= i < inputs.len(),
        map_get(vars, inputs[i].0) is None,
        vars.len() != 1 || inputs.len() != 1,
    ensures
        spec_bind(vars, inputs) matches Err((missing, available)) && missing.contains(inputs[i].0)
            && available == vars.map_values(|e: (Seq<char>, Json)| e.0),
{
    lemma_missing_input(vars, inputs, i);
}

/// With one input and one variable, an input not found by name is bound to
/// that variable's value.
pub proof fn lemma_bind_one_to_one(vars: Seq<(Seq<char>, Json)>, inputs: Seq<(Seq<char>, Json)>)
    requires
        inputs.len() == 1,
        vars.len() == 1,
        map_get(vars, inputs[0].0) is None,
    ensures
        spec_bind(vars, inputs) matches Ok(b) && b == seq![(inputs[0].0, vars[0].1)],
{
    reveal_with_fuel(bind_by_name, 2);
    lemma_missing_input(vars, inputs, 0);
    assert(inputs.drop_last() =~= Seq::<(Seq<char>, Json)>::empty());
}

/// Binds `vars` to `grammar_inputs`: by name, else one-to-one, else an error
/// naming the missing inputs and the available variables.
pub fn bind_vars_to_inputs(vars: &JsonMap, grammar_inputs: &JsonMap) -> (r: Result<JsonMap>)
    ensures
        match spec_bind(entries_model(vars@), entries_model(grammar_inputs@)) {
            Ok(b) => r matches Ok(m) && entries_model(m@) == b,
            Err((missing, available)) => r matches Err(RuntimeError::Binding { missing: m, available: a })
                && strings_view(m@) == missing && strings_view(a@) == available,
        },
{
    let ghost vm = entries_model(vars@);
    let ghost im = entries_model(grammar_inputs@);
    let mut bound: JsonMap = Vec::new();
    let mut missing: Vec<String> = Vec::new();
    let mut i: usize = 0;
    while i < grammar_inputs.len()
        invariant
            i <= grammar_inputs.len(),
            vm == entries_model(vars@),
            im == entries_model(grammar_inputs@),
            bind_by_name(vm, im.take(i as int)) == (entries_model(bound@), strings_view(missing@)),
        decreases grammar_inputs.len() - i,
    {
        proof {
            assert(im.take(i + 1).drop_last() =~= im.take(i as int));
            assert(im.take(i + 1).last() == im[i as int]);
        }
        let k = &grammar_inputs[i].0;
        match obj_get(vars, k.as_str()) {
            Some(v) => {
                let x = v.duplicate();
                obj_insert(&mut bound, k.clone(), x);
            },
            None => {
                let ghost before = missing@;
                missing.push(k.clone());
                assert(strings_view(missing@) =~= strings_view(before).push(k@));
            },
        }
        i = i + 1;
    }
    assert(im.take(grammar_inputs.len() as int) =~= im);
    if missing.len() == 0 {
        return Ok(bound);
    }
    if grammar_inputs.len() == 1 && vars.len() == 1 {
        let gin = grammar_inputs[0].0.clone();
        let v = vars[0].1.duplicate();
        obj_insert(&mut bound, gin, v);
        return Ok(bound);
    }
    let mut available: Vec<String> = Vec::new();
    let mut j: usize = 0;
    while j < vars.len()
        invariant
            j <= vars.len(),
            vm == entries_model(vars@),
            available@.len() == j,
            strings_view(available@) =~= keys_of(vm).take(j as int),
        decreases vars.len() - j,
    {
        let ghost before = available@;
        available.push(vars[j].0.clone());
        assert(strings_view(available@) =~= strings_view(before).push(vm[j as int].0));
        j = j + 1;
    }
    assert(keys_of(vm).take(vars.len() as int) =~= keys_of(vm));
    Err(RuntimeError::Binding { missing, available })
}

} // verus!
