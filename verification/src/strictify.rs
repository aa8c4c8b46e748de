//! The schema strictifier.
//!
//! `strictify` rewrites a schema description so that every object node it
//! can see demands exactly its declared properties: `additionalProperties`
//! becomes `false` and `required` becomes the ordered list of keys of
//! `properties`, at every nesting level reached through `properties`,
//! `items` and `oneOf`.  Nodes of any other shape pass through unchanged.
//! `strict_m` is the spec-level statement of the same transform.

use vstd::prelude::*;
use crate::json::{Value, JsonModel, Entry, model_of, models_of, entries_of, obj_lookup, obj_set};
use crate::json::{lemma_models_of, lemma_entries_of};

verus! {

pub open spec fn k_type() -> Seq<char> {
    "type"@
}

pub open spec fn k_object() -> Seq<char> {
    "object"@
}

pub open spec fn k_array() -> Seq<char> {
    "array"@
}

pub open spec fn k_properties() -> Seq<char> {
    "properties"@
}

pub open spec fn k_required() -> Seq<char> {
    "required"@
}

pub open spec fn k_additional() -> Seq<char> {
    "additionalProperties"@
}

pub open spec fn k_items() -> Seq<char> {
    "items"@
}

pub open spec fn k_one_of() -> Seq<char> {
    "oneOf"@
}

/// The keys the transform writes or reads are pairwise distinct words.
pub proof fn lemma_keys_distinct()
    ensures
        k_type() != k_properties(),
        k_type() != k_required(),
        k_type() != k_additional(),
        k_type() != k_items(),
        k_type() != k_one_of(),
        k_properties() != k_required(),
        k_properties() != k_additional(),
        k_properties() != k_items(),
        k_properties() != k_one_of(),
        k_required() != k_additional(),
        k_required() != k_items(),
        k_required() != k_one_of(),
        k_additional() != k_items(),
        k_additional() != k_one_of(),
        k_items() != k_one_of(),
        k_object() != k_array(),
{
    reveal_strlit("type");
    reveal_strlit("object");
    reveal_strlit("array");
    reveal_strlit("properties");
    reveal_strlit("required");
    reveal_strlit("additionalProperties");
    reveal_strlit("items");
    reveal_strlit("oneOf");
    assert(k_type()[0] == 't');
    assert(k_object()[0] == 'o');
    assert(k_array()[0] == 'a');
    assert(k_properties()[0] == 'p');
    assert(k_required()[0] == 'r');
    assert(k_additional()[0] == 'a');
    assert(k_items()[0] == 'i');
    assert(k_one_of()[0] == 'o');
    assert(k_additional().len() == 20);
    assert(k_array().len() == 5);
    assert(k_items().len() == 5);
    assert(k_one_of().len() == 5);
    assert(k_items()[1] == 't');
    assert(k_one_of()[1] == 'n');
    assert(k_array()[1] == 'r');
    assert(k_object()[1] == 'b');
}

/// A value found under a key sits below the entry sequence it was found in.
pub proof fn lemma_lookup_decreases(ps: Seq<Entry>, k: Seq<char>)
    requires
        obj_lookup(ps, k) is Some,
    ensures
        decreases_to!(ps => obj_lookup(ps, k).unwrap()),
    decreases ps.len(),
{
    if ps[0].0 == k {
        assert(decreases_to!(ps => ps[0]));
        assert(decreases_to!(ps[0] => ps[0].1));
    } else {
        let tail = ps.subrange(1, ps.len() as int);
        lemma_lookup_decreases(tail, k);
        assert(decreases_to!(ps => tail));
    }
}

/// The `required` list an object node gets: its property keys, in order.
pub open spec fn required_of(ps: Seq<Entry>) -> JsonModel {
    match obj_lookup(ps, k_properties()) {
        Some(JsonModel::Obj(props)) => JsonModel::Arr(
            Seq::new(props.len(), |i: int| JsonModel::Str(props[i].0)),
        ),
        _ => JsonModel::Arr(Seq::empty()),
    }
}

/// The strictification transform on the spec-level tree.
pub open spec fn strict_m(m: JsonModel) -> JsonModel
    decreases m,
{
    match m {
        JsonModel::Obj(ps) => JsonModel::Obj(strict_entries(ps)),
        _ => m,
    }
}

/// The transform on one object node's entries.
pub open spec fn strict_entries(ps: Seq<Entry>) -> Seq<Entry>
    decreases ps,
{
    let typed = if obj_lookup(ps, k_type()) == Some(JsonModel::Str(k_object())) {
        let base = obj_set(
            obj_set(ps, k_additional(), JsonModel::Bool(false)),
            k_required(),
            required_of(ps),
        );
        match obj_lookup(ps, k_properties()) {
            Some(JsonModel::Obj(props)) => {
                proof {
                    lemma_lookup_decreases(ps, k_properties());
                    assert(decreases_to!(JsonModel::Obj(props) => props));
                }
                obj_set(base, k_properties(), JsonModel::Obj(strict_vals(props)))
            },
            _ => base,
        }
    } else if obj_lookup(ps, k_type()) == Some(JsonModel::Str(k_array())) {
        match obj_lookup(ps, k_items()) {
            Some(item) => {
                proof {
                    lemma_lookup_decreases(ps, k_items());
                }
                obj_set(ps, k_items(), strict_m(item))
            },
            None => ps,
        }
    } else {
        ps
    };
    match obj_lookup(ps, k_one_of()) {
        Some(JsonModel::Arr(bs)) => {
            proof {
                lemma_lookup_decreases(ps, k_one_of());
                assert(decreases_to!(JsonModel::Arr(bs) => bs));
            }
            obj_set(typed, k_one_of(), JsonModel::Arr(strict_list(bs)))
        },
        _ => typed,
    }
}

/// The transform applied to each value of a `properties` mapping.
pub open spec fn strict_vals(ps: Seq<Entry>) -> Seq<Entry>
    decreases ps,
{
    if ps.len() == 0 {
        Seq::empty()
    } else {
        seq![(ps[0].0, strict_m(ps[0].1))] + strict_vals(ps.subrange(1, ps.len() as int))
    }
}

/// The transform applied to each branch of a `oneOf` list.
pub open spec fn strict_list(bs: Seq<JsonModel>) -> Seq<JsonModel>
    decreases bs,
{
    if bs.len() == 0 {
        Seq::empty()
    } else {
        seq![strict_m(bs[0])] + strict_list(bs.subrange(1, bs.len() as int))
    }
}

pub proof fn lemma_strict_vals(ps: Seq<Entry>)
    ensures
        strict_vals(ps).len() == ps.len(),
        forall|i: int| 0 <= i < ps.len() ==> strict_vals(ps)[i] == (ps[i].0, strict_m(ps[i].1)),
    decreases ps.len(),
{
    if ps.len() > 0 {
        lemma_strict_vals(ps.subrange(1, ps.len() as int));
    }
}

pub proof fn lemma_strict_list(bs: Seq<JsonModel>)
    ensures
        strict_list(bs).len() == bs.len(),
        forall|i: int| 0 <= i < bs.len() ==> strict_list(bs)[i] == strict_m(bs[i]),
    decreases bs.len(),
{
    if bs.len() > 0 {
        lemma_strict_list(bs.subrange(1, bs.len() as int));
    }
}

/// Reading back after a write: the written key holds the new value, every
/// other key is untouched.
pub proof fn lemma_lookup_set(ps: Seq<Entry>, k: Seq<char>, v: JsonModel)
    ensures
        obj_lookup(obj_set(ps, k, v), k) == Some(v),
        forall|k2: Seq<char>|
            k2 != k ==> #[trigger] obj_lookup(obj_set(ps, k, v), k2) == obj_lookup(ps, k2),
    decreases ps.len(),
{
    reveal_with_fuel(obj_lookup, 3);
    reveal_with_fuel(obj_set, 3);
    let out = obj_set(ps, k, v);
    if ps.len() == 0 {
        assert(out[0] == (k, v));
        assert(out.subrange(1, out.len() as int) =~= Seq::<Entry>::empty());
    } else {
        let tail = ps.subrange(1, ps.len() as int);
        if ps[0].0 == k {
            assert(out[0] == (k, v));
            assert(out.subrange(1, out.len() as int) =~= tail);
        } else {
            lemma_lookup_set(tail, k, v);
            assert(out[0] == ps[0]);
            assert(out.subrange(1, out.len() as int) =~= obj_set(tail, k, v));
            assert forall|k2: Seq<char>|
                k2 != k implies #[trigger] obj_lookup(out, k2) == obj_lookup(ps, k2) by {
                assert(obj_lookup(obj_set(tail, k, v), k2) == obj_lookup(tail, k2));
            }
        }
    }
}

/// Writing back a value that is already there changes nothing.
pub proof fn lemma_set_noop(ps: Seq<Entry>, k: Seq<char>, v: JsonModel)
    requires
        obj_lookup(ps, k) == Some(v),
    ensures
        obj_set(ps, k, v) == ps,
    decreases ps.len(),
{
    reveal_with_fuel(obj_lookup, 2);
    reveal_with_fuel(obj_set, 2);
    let tail = ps.subrange(1, ps.len() as int);
    if ps[0].0 == k {
        assert(obj_set(ps, k, v) =~= ps);
    } else {
        lemma_set_noop(tail, k, v);
        assert(obj_set(ps, k, v) =~= ps);
    }
}

/// A node whose written keys already hold what the transform would write,
/// and whose children are already transformed, passes through unchanged.
proof fn lemma_strict_entries_noop(qs: Seq<Entry>)
    requires
        obj_lookup(qs, k_type()) == Some(JsonModel::Str(k_object())) ==> {
            &&& obj_lookup(qs, k_additional()) == Some(JsonModel::Bool(false))
            &&& obj_lookup(qs, k_required()) == Some(required_of(qs))
            &&& match obj_lookup(qs, k_properties()) {
                Some(JsonModel::Obj(props)) => strict_vals(props) == props,
                _ => true,
            }
        },
        obj_lookup(qs, k_type()) == Some(JsonModel::Str(k_array())) ==> match obj_lookup(
            qs,
            k_items(),
        ) {
            Some(item) => strict_m(item) == item,
            None => true,
        },
        match obj_lookup(qs, k_one_of()) {
            Some(JsonModel::Arr(bs)) => strict_list(bs) == bs,
            _ => true,
        },
    ensures
        strict_entries(qs) == qs,
{
    lemma_keys_distinct();
    let t = obj_lookup(qs, k_type());
    if t == Some(JsonModel::Str(k_object())) {
        lemma_set_noop(qs, k_additional(), JsonModel::Bool(false));
        lemma_set_noop(qs, k_required(), required_of(qs));
        match obj_lookup(qs, k_properties()) {
            Some(JsonModel::Obj(props)) => {
                lemma_set_noop(qs, k_properties(), JsonModel::Obj(strict_vals(props)));
            },
            _ => {},
        }
    } else if t == Some(JsonModel::Str(k_array())) {
        match obj_lookup(qs, k_items()) {
            Some(item) => {
                lemma_set_noop(qs, k_items(), strict_m(item));
            },
            None => {},
        }
    }
    match obj_lookup(qs, k_one_of()) {
        Some(JsonModel::Arr(bs)) => {
            lemma_set_noop(qs, k_one_of(), JsonModel::Arr(strict_list(bs)));
        },
        _ => {},
    }
}

/// Strictification is idempotent: hardening an already hardened schema
/// description changes nothing, at any nesting depth.
pub proof fn lemma_strictify_idempotent(m: JsonModel)
    ensures
        strict_m(strict_m(m)) == strict_m(m),
    decreases m,
{
    lemma_keys_distinct();
    match m {
        JsonModel::Obj(ps) => {
            let ps2 = strict_entries(ps);
            let t = obj_lookup(ps, k_type());

            // How one pass leaves `typed`, before the oneOf step.
            let typed: Seq<Entry>;
            if t == Some(JsonModel::Str(k_object())) {
                let s1 = obj_set(ps, k_additional(), JsonModel::Bool(false));
                let s2 = obj_set(s1, k_required(), required_of(ps));
                lemma_lookup_set(ps, k_additional(), JsonModel::Bool(false));
                lemma_lookup_set(s1, k_required(), required_of(ps));
                match obj_lookup(ps, k_properties()) {
                    Some(JsonModel::Obj(props)) => {
                        let pv = strict_vals(props);
                        typed = obj_set(s2, k_properties(), JsonModel::Obj(pv));
                        lemma_lookup_set(s2, k_properties(), JsonModel::Obj(pv));
                        lemma_strict_vals(props);
                        lemma_strict_vals(pv);
                        assert forall|i: int| 0 <= i < props.len() implies #[trigger] strict_m(
                            strict_m(props[i].1),
                        ) == strict_m(props[i].1) by {
                            lemma_lookup_decreases(ps, k_properties());
                            assert(decreases_to!(JsonModel::Obj(props) => props));
                            assert(decreases_to!(props => props[i]));
                            lemma_strictify_idempotent(props[i].1);
                        }
                        assert(strict_vals(pv) =~= pv);
                    },
                    _ => {
                        typed = s2;
                    },
                }
            } else if t == Some(JsonModel::Str(k_array())) {
                match obj_lookup(ps, k_items()) {
                    Some(item) => {
                        lemma_lookup_decreases(ps, k_items());
                        lemma_strictify_idempotent(item);
                        typed = obj_set(ps, k_items(), strict_m(item));
                        lemma_lookup_set(ps, k_items(), strict_m(item));
                    },
                    None => {
                        typed = ps;
                    },
                }
            } else {
                typed = ps;
            }

            // The oneOf step, shared by every case above.
            match obj_lookup(ps, k_one_of()) {
                Some(JsonModel::Arr(bs)) => {
                    assert(ps2 == obj_set(typed, k_one_of(), JsonModel::Arr(strict_list(bs))));
                    lemma_lookup_set(typed, k_one_of(), JsonModel::Arr(strict_list(bs)));
                    lemma_strict_list(bs);
                    lemma_strict_list(strict_list(bs));
                    assert forall|i: int| 0 <= i < bs.len() implies #[trigger] strict_m(
                        strict_m(bs[i]),
                    ) == strict_m(bs[i]) by {
                        lemma_lookup_decreases(ps, k_one_of());
                        assert(decreases_to!(JsonModel::Arr(bs) => bs));
                        assert(decreases_to!(bs => bs[i]));
                        lemma_strictify_idempotent(bs[i]);
                    }
                    assert(strict_list(strict_list(bs)) =~= strict_list(bs));
                },
                _ => {
                    assert(ps2 == typed);
                },
            }

            // `required` recomputed on the hardened node is unchanged.
            if t == Some(JsonModel::Str(k_object())) {
                match obj_lookup(ps, k_properties()) {
                    Some(JsonModel::Obj(props)) => {
                        let pv = strict_vals(props);
                        lemma_strict_vals(props);
                        assert(obj_lookup(ps2, k_properties()) == Some(JsonModel::Obj(pv)));
                        assert(Seq::new(pv.len(), |i: int| JsonModel::Str(pv[i].0)) =~= Seq::new(
                            props.len(),
                            |i: int| JsonModel::Str(props[i].0),
                        ));
                        assert(required_of(ps2) == required_of(ps));
                    },
                    _ => {
                        assert(obj_lookup(ps2, k_properties()) == obj_lookup(ps, k_properties()));
                        assert(required_of(ps2) == required_of(ps));
                    },
                }
            }

            lemma_strict_entries_noop(ps2);
        },
        _ => {},
    }
}

/// A key found first at position `i` is what `obj_lookup` answers.
pub proof fn lemma_lookup_first(ps: Seq<Entry>, k: Seq<char>, i: int)
    requires
        0 <= i < ps.len(),
        ps[i].0 == k,
        forall|j: int| 0 <= j < i ==> ps[j].0 != k,
    ensures
        obj_lookup(ps, k) == Some(ps[i].1),
    decreases i,
{
    if i > 0 {
        let tail = ps.subrange(1, ps.len() as int);
        assert forall|j: int| 0 <= j < i - 1 implies tail[j].0 != k by {
            assert(ps[j + 1].0 != k);
        }
        lemma_lookup_first(tail, k, i - 1);
    }
}

/// A key no entry carries is not found.
pub proof fn lemma_lookup_absent(ps: Seq<Entry>, k: Seq<char>)
    requires
        forall|j: int| 0 <= j < ps.len() ==> ps[j].0 != k,
    ensures
        obj_lookup(ps, k) is None,
    decreases ps.len(),
{
    if ps.len() > 0 {
        lemma_lookup_absent(ps.subrange(1, ps.len() as int), k);
    }
}

/// Writing a key found first at position `i` updates that entry in place.
pub proof fn lemma_set_first(ps: Seq<Entry>, k: Seq<char>, v: JsonModel, i: int)
    requires
        0 <= i < ps.len(),
        ps[i].0 == k,
        forall|j: int| 0 <= j < i ==> ps[j].0 != k,
    ensures
        obj_set(ps, k, v) == ps.update(i, (k, v)),
    decreases i,
{
    if i == 0 {
        assert(obj_set(ps, k, v) =~= ps.update(0, (k, v)));
    } else {
        let tail = ps.subrange(1, ps.len() as int);
        assert forall|j: int| 0 <= j < i - 1 implies tail[j].0 != k by {
            assert(ps[j + 1].0 != k);
        }
        lemma_set_first(tail, k, v, i - 1);
        assert(ps[0].0 != k);
        assert(obj_set(ps, k, v) =~= ps.update(i, (k, v)));
    }
}

/// Writing an absent key appends the entry.
pub proof fn lemma_set_absent(ps: Seq<Entry>, k: Seq<char>, v: JsonModel)
    requires
        forall|j: int| 0 <= j < ps.len() ==> ps[j].0 != k,
    ensures
        obj_set(ps, k, v) == ps.push((k, v)),
    decreases ps.len(),
{
    if ps.len() == 0 {
        assert(obj_set(ps, k, v) =~= ps.push((k, v)));
    } else {
        lemma_set_absent(ps.subrange(1, ps.len() as int), k, v);
        assert(obj_set(ps, k, v) =~= ps.push((k, v)));
    }
}

/// Whether `s` spells the word `w`.
fn str_is(s: &String, w: &str) -> (r: bool)
    ensures
        r == (s@ == w@),
{
    let o: String = w.to_owned();
    *s == o
}

/// The position of the first entry named `k`, if any.
pub(crate) fn find_key(ps: &Vec<(String, Value)>, k: &str) -> (r: Option<usize>)
    ensures
        match r {
            Some(i) => i < ps.len() && ps@[i as int].0@ == k@ && (forall|j: int|
                0 <= j < i ==> ps@[j].0@ != k@),
            None => forall|j: int| 0 <= j < ps@.len() ==> ps@[j].0@ != k@,
        },
{
    let mut i: usize = 0;
    while i < ps.len()
        invariant
            i <= ps.len(),
            forall|j: int| 0 <= j < i ==> ps@[j].0@ != k@,
        decreases ps.len() - i,
    {
        if str_is(&ps[i].0, k) {
            return Some(i);
        }
        i += 1;
    }
    None
}

/// Whether the node's `type` entry is the string `w`.
fn type_is(ps: &Vec<(String, Value)>, w: &str) -> (r: bool)
    ensures
        r == (obj_lookup(entries_of(ps@), "type"@) == Some(JsonModel::Str(w@))),
{
    proof {
        lemma_entries_of(ps@);
    }
    match find_key(ps, "type") {
        Some(i) => {
            proof {
                lemma_lookup_first(entries_of(ps@), "type"@, i as int);
            }
            match &ps[i].1 {
                Value::Str(s) => str_is(s, w),
                _ => false,
            }
        },
        None => {
            proof {
                lemma_lookup_absent(entries_of(ps@), "type"@);
            }
            false
        },
    }
}

/// Replace the value under `k`, or append the entry when `k` is absent.
fn set_entry(ps: &mut Vec<(String, Value)>, k: &str, v: Value)
    ensures
        entries_of(final(ps)@) == obj_set(entries_of(old(ps)@), k@, model_of(v)),
{
    proof {
        lemma_entries_of(ps@);
    }
    let ghost es = entries_of(ps@);
    match find_key(ps, k) {
        Some(i) => {
            ps.set(i, (k.to_owned(), v));
            proof {
                lemma_set_first(es, k@, model_of(v), i as int);
                lemma_entries_of(ps@);
                assert(entries_of(ps@) =~= es.update(i as int, (k@, model_of(v))));
            }
        },
        None => {
            ps.push((k.to_owned(), v));
            proof {
                lemma_set_absent(es, k@, model_of(v));
                lemma_entries_of(ps@);
                assert(entries_of(ps@) =~= es.push((k@, model_of(v))));
            }
        },
    }
}

/// A structurally fresh copy of a tree.
pub fn clone_value(v: &Value) -> (r: Value)
    ensures
        model_of(r) == model_of(*v),
    decreases v,
{
    match v {
        Value::Null => Value::Null,
        Value::Bool(b) => Value::Bool(*b),
        Value::Num(n) => Value::Num(n.clone()),
        Value::Str(s) => Value::Str(s.clone()),
        Value::Arr(xs) => {
            let mut out: Vec<Value> = Vec::new();
            let mut i: usize = 0;
            while i < xs.len()
                invariant
                    i <= xs.len(),
                    out@.len() == i as nat,
                    *v == Value::Arr(*xs),
                    forall|j: int| 0 <= j < i ==> model_of(out@[j]) == model_of(xs@[j]),
                decreases xs.len() - i,
            {
                proof {
                    assert(decreases_to!(*v => v->Arr_0));
                    assert(v->Arr_0 == *xs);
                    assert(decreases_to!(*xs => xs@));
                    assert(decreases_to!(xs@ => xs@[i as int]));
                }
                out.push(clone_value(&xs[i]));
                i += 1;
            }
            proof {
                lemma_models_of(out@);
                lemma_models_of(xs@);
                assert(models_of(out@) =~= models_of(xs@));
            }
            Value::Arr(out)
        },
        Value::Obj(ps) => Value::Obj(clone_entries(ps)),
    }
}

/// A structurally fresh copy of an object's entries.
fn clone_entries(ps: &Vec<(String, Value)>) -> (r: Vec<(String, Value)>)
    ensures
        entries_of(r@) == entries_of(ps@),
    decreases ps,
{
    let mut out: Vec<(String, Value)> = Vec::new();
    let mut i: usize = 0;
    while i < ps.len()
        invariant
            i <= ps.len(),
            out@.len() == i as nat,
            forall|j: int|
                0 <= j < i ==> out@[j].0@ == ps@[j].0@ && model_of(out@[j].1) == model_of(
                    ps@[j].1,
                ),
        decreases ps.len() - i,
    {
        out.push((ps[i].0.clone(), clone_value(&ps[i].1)));
        i += 1;
    }
    proof {
        lemma_entries_of(out@);
        lemma_entries_of(ps@);
        assert(entries_of(out@) =~= entries_of(ps@));
    }
    out
}

/// The `required` list owed to an object node: its property keys, in order.
fn required_list(ps: &Vec<(String, Value)>) -> (r: Vec<Value>)
    ensures
        JsonModel::Arr(models_of(r@)) == required_of(entries_of(ps@)),
{
    proof {
        lemma_entries_of(ps@);
    }
    let ghost es = entries_of(ps@);
    match find_key(ps, "properties") {
        Some(i) => {
            proof {
                lemma_lookup_first(es, "properties"@, i as int);
            }
            match &ps[i].1 {
                Value::Obj(props) => {
                    let mut out: Vec<Value> = Vec::new();
                    let mut j: usize = 0;
                    while j < props.len()
                        invariant
                            j <= props.len(),
                            out@.len() == j as nat,
                            forall|t: int|
                                0 <= t < j ==> model_of(out@[t]) == JsonModel::Str(props@[t].0@),
                        decreases props.len() - j,
                    {
                        out.push(Value::Str(props[j].0.clone()));
                        j += 1;
                    }
                    proof {
                        lemma_models_of(out@);
                        lemma_entries_of(props@);
                        let pes = entries_of(props@);
                        assert(models_of(out@) =~= Seq::new(
                            pes.len(),
                            |t: int| JsonModel::Str(pes[t].0),
                        ));
                    }
                    out
                },
                _ => {
                    proof {
                        assert(models_of(Seq::<Value>::empty()) =~= Seq::<JsonModel>::empty());
                    }
                    Vec::new()
                },
            }
        },
        None => {
            proof {
                assert forall|j: int| 0 <= j < es.len() implies es[j].0 != "properties"@ by {}
                lemma_lookup_absent(es, "properties"@);
                assert(models_of(Seq::<Value>::empty()) =~= Seq::<JsonModel>::empty());
            }
            Vec::new()
        },
    }
}

/// Harden a schema description: every object node reached through
/// `properties`, `items` and `oneOf` comes to demand exactly its declared
/// properties.  Any node of another shape passes through unchanged.
pub fn strictify(v: &Value) -> (r: Value)
    ensures
        model_of(r) == strict_m(model_of(*v)),
    decreases v,
{
    match v {
        Value::Obj(ps) => {
            proof {
                lemma_keys_distinct();
                lemma_entries_of(ps@);
            }
            let ghost es = entries_of(ps@);
            let mut out = clone_entries(ps);
            let ghost mut tspec: Seq<Entry> = es;
            if type_is(ps, "object") {
                set_entry(&mut out, "additionalProperties", Value::Bool(false));
                let req = required_list(ps);
                set_entry(&mut out, "required", Value::Arr(req));
                proof {
                    tspec = obj_set(
                        obj_set(es, k_additional(), JsonModel::Bool(false)),
                        k_required(),
                        required_of(es),
                    );
                    assert(entries_of(out@) == tspec);
                }
                match find_key(ps, "properties") {
                    Some(pi) => {
                        proof {
                            lemma_lookup_first(es, "properties"@, pi as int);
                        }
                        match &ps[pi].1 {
                            Value::Obj(props) => {
                                let mut np: Vec<(String, Value)> = Vec::new();
                                let mut i: usize = 0;
                                while i < props.len()
                                    invariant
                                        i <= props.len(),
                                        np@.len() == i as nat,
                                        *v == Value::Obj(*ps),
                                        pi < ps@.len(),
                                        ps@[pi as int].1 == Value::Obj(*props),
                                        forall|j: int|
                                            0 <= j < i ==> np@[j].0@ == props@[j].0@ && model_of(
                                                np@[j].1,
                                            ) == strict_m(model_of(props@[j].1)),
                                    decreases props.len() - i,
                                {
                                    proof {
                                        assert(decreases_to!(*v => v->Obj_0));
                                        assert(v->Obj_0 == *ps);
                                        assert(decreases_to!(*ps => ps@));
                                        assert(decreases_to!(ps@ => ps@[pi as int]));
                                        assert(decreases_to!(ps@[pi as int] => ps@[pi as int].1));
                                        assert(decreases_to!(ps@[pi as int].1 => ps@[
                                            pi as int
                                        ].1->Obj_0));
                                        assert(ps@[pi as int].1->Obj_0 == *props);
                                        assert(decreases_to!(*props => props@));
                                        assert(decreases_to!(props@ => props@[i as int]));
                                    }
                                    let sv = strictify(&props[i].1);
                                    np.push((props[i].0.clone(), sv));
                                    i += 1;
                                }
                                proof {
                                    lemma_entries_of(np@);
                                    lemma_entries_of(props@);
                                    lemma_strict_vals(entries_of(props@));
                                    assert(entries_of(np@) =~= strict_vals(entries_of(props@)));
                                }
                                set_entry(&mut out, "properties", Value::Obj(np));
                                proof {
                                    tspec = obj_set(
                                        tspec,
                                        k_properties(),
                                        JsonModel::Obj(strict_vals(entries_of(props@))),
                                    );
                                    assert(entries_of(out@) == tspec);
                                }
                            },
                            _ => {},
                        }
                    },
                    None => {
                        proof {
                            assert forall|j: int|
                                0 <= j < es.len() implies es[j].0 != "properties"@ by {}
                            lemma_lookup_absent(es, "properties"@);
                        }
                    },
                }
            } else if type_is(ps, "array") {
                match find_key(ps, "items") {
                    Some(ii) => {
                        proof {
                            lemma_lookup_first(es, "items"@, ii as int);
                            assert(decreases_to!(*v => v->Obj_0));
                            assert(v->Obj_0 == *ps);
                            assert(decreases_to!(*ps => ps@));
                            assert(decreases_to!(ps@ => ps@[ii as int]));
                            assert(decreases_to!(ps@[ii as int] => ps@[ii as int].1));
                        }
                        let si = strictify(&ps[ii].1);
                        set_entry(&mut out, "items", si);
                        proof {
                            tspec = obj_set(es, k_items(), strict_m(es[ii as int].1));
                            assert(entries_of(out@) == tspec);
                        }
                    },
                    None => {
                        proof {
                            assert forall|j: int|
                                0 <= j < es.len() implies es[j].0 != "items"@ by {}
                            lemma_lookup_absent(es, "items"@);
                        }
                    },
                }
            }
            match find_key(ps, "oneOf") {
                Some(oi) => {
                    proof {
                        lemma_lookup_first(es, "oneOf"@, oi as int);
                    }
                    match &ps[oi].1 {
                        Value::Arr(bs) => {
                            let mut nb: Vec<Value> = Vec::new();
                            let mut i: usize = 0;
                            while i < bs.len()
                                invariant
                                    i <= bs.len(),
                                    nb@.len() == i as nat,
                                    *v == Value::Obj(*ps),
                                    oi < ps@.len(),
                                    ps@[oi as int].1 == Value::Arr(*bs),
                                    forall|j: int|
                                        0 <= j < i ==> model_of(nb@[j]) == strict_m(
                                            model_of(bs@[j]),
                                        ),
                                decreases bs.len() - i,
                            {
                                proof {
                                    assert(decreases_to!(*v => v->Obj_0));
                                    assert(v->Obj_0 == *ps);
                                    assert(decreases_to!(*ps => ps@));
                                    assert(decreases_to!(ps@ => ps@[oi as int]));
                                    assert(decreases_to!(ps@[oi as int] => ps@[oi as int].1));
                                    assert(decreases_to!(ps@[oi as int].1 => ps@[
                                        oi as int
                                    ].1->Arr_0));
                                    assert(ps@[oi as int].1->Arr_0 == *bs);
                                    assert(decreases_to!(*bs => bs@));
                                    assert(decreases_to!(bs@ => bs@[i as int]));
                                }
                                nb.push(strictify(&bs[i]));
                                i += 1;
                            }
                            proof {
                                lemma_models_of(nb@);
                                lemma_models_of(bs@);
                                lemma_strict_list(models_of(bs@));
                                assert(models_of(nb@) =~= strict_list(models_of(bs@)));
                            }
                            set_entry(&mut out, "oneOf", Value::Arr(nb));
                            proof {
                                tspec = obj_set(
                                    tspec,
                                    k_one_of(),
                                    JsonModel::Arr(strict_list(models_of(bs@))),
                                );
                                assert(entries_of(out@) == tspec);
                            }
                        },
                        _ => {},
                    }
                },
                None => {
                    proof {
                        assert forall|j: int| 0 <= j < es.len() implies es[j].0 != "oneOf"@ by {}
                        lemma_lookup_absent(es, "oneOf"@);
                    }
                },
            }
            proof {
                assert(entries_of(out@) == strict_entries(es));
            }
            Value::Obj(out)
        },
        Value::Null => Value::Null,
        Value::Bool(b) => Value::Bool(*b),
        Value::Num(n) => Value::Num(n.clone()),
        Value::Str(s) => Value::Str(s.clone()),
        Value::Arr(xs) => {
            let c = clone_value(v);
            proof {
                assert(strict_m(model_of(*v)) == model_of(*v));
            }
            c
        },
    }
}

} // verus!
