//! A JSON-like tree and its mathematical model.
//!
//! `Value` is the executable tree; `JsonModel` is the spec-level picture of
//! the same tree, with text as `Seq<char>` and object entries as an ordered
//! sequence of key/value pairs.  Objects keep their entries in insertion
//! order; a key is read by its first occurrence.

use vstd::prelude::*;

verus! {

/// Number values are carried through untouched; the library never inspects
/// them, so the foreign number type is kept opaque.
#[verifier::external_type_specification]
#[verifier::external_body]
pub struct ExNumber(serde_json::Number);

/// Relies on the derived `Clone` of `serde_json::Number`: the clone carries
/// the same numeric value as the original.
pub assume_specification[ <serde_json::Number as Clone>::clone ](n: &serde_json::Number) -> (r:
    serde_json::Number)
    ensures
        r == *n,
;

/// One node of a JSON-like tree.
#[derive(Debug, PartialEq)]
pub enum Value {
    Null,
    Bool(bool),
    Num(serde_json::Number),
    Str(String),
    Arr(Vec<Value>),
    Obj(Vec<(String, Value)>),
}

/// The spec-level picture of a `Value`.
pub enum JsonModel {
    Null,
    Bool(bool),
    Num(serde_json::Number),
    Str(Seq<char>),
    Arr(Seq<JsonModel>),
    Obj(Seq<(Seq<char>, JsonModel)>),
}

/// One spec-level object entry: a key and its value.
pub type Entry = (Seq<char>, JsonModel);

pub open spec fn model_of(v: Value) -> JsonModel
    decreases v,
{
    match v {
        Value::Null => JsonModel::Null,
        Value::Bool(b) => JsonModel::Bool(b),
        Value::Num(n) => JsonModel::Num(n),
        Value::Str(s) => JsonModel::Str(s@),
        Value::Arr(xs) => JsonModel::Arr(models_of(xs@)),
        Value::Obj(ps) => JsonModel::Obj(entries_of(ps@)),
    }
}

pub open spec fn models_of(xs: Seq<Value>) -> Seq<JsonModel>
    decreases xs,
{
    if xs.len() == 0 {
        Seq::empty()
    } else {
        seq![model_of(xs[0])] + models_of(xs.subrange(1, xs.len() as int))
    }
}

pub open spec fn entries_of(ps: Seq<(String, Value)>) -> Seq<Entry>
    decreases ps,
{
    if ps.len() == 0 {
        Seq::empty()
    } else {
        seq![(ps[0].0@, model_of(ps[0].1))] + entries_of(ps.subrange(1, ps.len() as int))
    }
}

impl View for Value {
    type V = JsonModel;

    open spec fn view(&self) -> JsonModel {
        model_of(*self)
    }
}

/// The value under key `k`, read at the first occurrence of `k`.
pub open spec fn obj_lookup(ps: Seq<Entry>, k: Seq<char>) -> Option<JsonModel>
    decreases ps.len(),
{
    if ps.len() == 0 {
        None
    } else if ps[0].0 == k {
        Some(ps[0].1)
    } else {
        obj_lookup(ps.subrange(1, ps.len() as int), k)
    }
}

/// Entries with the value under `k` replaced in place, or appended when `k`
/// is absent.
pub open spec fn obj_set(ps: Seq<Entry>, k: Seq<char>, v: JsonModel) -> Seq<Entry>
    decreases ps.len(),
{
    if ps.len() == 0 {
        seq![(k, v)]
    } else if ps[0].0 == k {
        seq![(k, v)] + ps.subrange(1, ps.len() as int)
    } else {
        seq![ps[0]] + obj_set(ps.subrange(1, ps.len() as int), k, v)
    }
}

pub proof fn lemma_models_of(xs: Seq<Value>)
    ensures
        models_of(xs).len() == xs.len(),
        forall|i: int| 0 <= i < xs.len() ==> models_of(xs)[i] == model_of(xs[i]),
    decreases xs.len(),
{
    if xs.len() > 0 {
        lemma_models_of(xs.subrange(1, xs.len() as int));
    }
}

pub proof fn lemma_entries_of(ps: Seq<(String, Value)>)
    ensures
        entries_of(ps).len() == ps.len(),
        forall|i: int| 0 <= i < ps.len() ==> entries_of(ps)[i] == (ps[i].0@, model_of(ps[i].1)),
    decreases ps.len(),
{
    if ps.len() > 0 {
        lemma_entries_of(ps.subrange(1, ps.len() as int));
    }
}

} // verus!
