//! The evaluator adapter.
//!
//! A `Schema` is built from a schema description: the description is
//! hardened by `strictify`, then compiled once by the external Draft 7
//! evaluator.  The compiled validator is immutable and answers the boolean
//! check `is_valid` and the detailed check `validate`.
//!
//! What the evaluator answers is a fixed function of the compiled
//! description and the document alone; the library names those answers
//! (`evaluator_accepts`, `evaluator_errors`) rather than restating the
//! whole of JSON Schema.

use vstd::prelude::*;
use crate::json::{Value, JsonModel, model_of};
use serde_json::Value as SerdeValue;
use crate::strictify::{strictify, strict_m};

verus! {

/// The tree representation the external evaluator reads, kept opaque.
#[verifier::external_type_specification]
#[verifier::external_body]
pub struct ExSerdeValue(SerdeValue);

/// The compiled validator of the external evaluator.  Verus refuses the
/// declaration of the generic validator type itself, so it sits opaque in
/// a field here.
#[verifier::external_body]
pub struct CompiledValidator {
    inner: jsonschema::Validator,
}

/// The description a validator was compiled from.
pub uninterp spec fn compiled_from(v: CompiledValidator) -> JsonModel;

/// Whether the external evaluator accepts a description as a well-formed
/// Draft 7 schema; compilation is a function of the description alone.
pub uninterp spec fn draft7_compiles(m: JsonModel) -> bool;

/// The external evaluator's verdict on a document, under the given
/// compiled schema description.
pub uninterp spec fn evaluator_accepts(schema: JsonModel, doc: JsonModel) -> bool;

/// The external evaluator's error report: one (message, instance path)
/// pair per failure, in the evaluator's traversal order.
pub uninterp spec fn evaluator_errors(schema: JsonModel, doc: JsonModel) -> Seq<
    (Seq<char>, Seq<char>),
>;

/// The schema description does not compile under the evaluator's dialect.
#[derive(Debug)]
pub struct SchemaCompileError {
    pub message: String,
}

/// One validation failure: what went wrong, and where in the document.
#[derive(Debug, PartialEq)]
pub struct ValidationError {
    pub message: String,
    pub instance_path: String,
}

/// Builds the `serde_json` mirror of a tree; used only inside the
/// evaluator wrappers below.  (For a degenerate object holding one key
/// twice, the mirror keeps the last value, as `serde_json` parsing would.)
#[verifier::external_body]
fn to_serde(v: &Value) -> SerdeValue {
    match v {
        Value::Null => SerdeValue::Null,
        Value::Bool(b) => SerdeValue::Bool(*b),
        Value::Num(n) => SerdeValue::Number(n.clone()),
        Value::Str(s) => SerdeValue::String(s.clone()),
        Value::Arr(xs) => SerdeValue::Array(xs.iter().map(to_serde).collect()),
        Value::Obj(ps) => SerdeValue::Object(
            ps.iter().map(|p| (p.0.clone(), to_serde(&p.1))).collect(),
        ),
    }
}

/// Relies on `jsonschema::draft7::new`: compiles a description into an
/// immutable Draft 7 validator, or reports why the description is not a
/// valid Draft 7 schema.  Whether it compiles depends on the description
/// alone: with no remote retrieval enabled, `draft7::new` is a pure
/// function of its argument.
#[verifier::external_body]
fn compile_draft7(v: &Value) -> (r: Result<CompiledValidator, SchemaCompileError>)
    ensures
        r is Ok <==> draft7_compiles(model_of(*v)),
        r matches Ok(val) ==> compiled_from(val) == model_of(*v),
{
    match jsonschema::draft7::new(&to_serde(v)) {
        Ok(val) => Ok(CompiledValidator { inner: val }),
        Err(e) => Err(SchemaCompileError { message: format!("{e}") }),
    }
}

/// Relies on `jsonschema::Validator::is_valid`: a side-effect-free check
/// whose verdict depends on the compiled schema and the document alone.
#[verifier::external_body]
fn eval_is_valid(val: &CompiledValidator, doc: &Value) -> (r: bool)
    ensures
        r == evaluator_accepts(compiled_from(*val), model_of(*doc)),
{
    val.inner.is_valid(&to_serde(doc))
}

/// Relies on `jsonschema::Validator::iter_errors`: every failure the
/// evaluator can identify, in its traversal order; the report is empty
/// exactly when `is_valid` answers true.
#[verifier::external_body]
fn eval_errors(val: &CompiledValidator, doc: &Value) -> (r: Vec<ValidationError>)
    ensures
        r@.len() == evaluator_errors(compiled_from(*val), model_of(*doc)).len(),
        forall|i: int|
            0 <= i < r@.len() ==> (r@[i].message@, r@[i].instance_path@) == evaluator_errors(
                compiled_from(*val),
                model_of(*doc),
            )[i],
        (r@.len() == 0) == evaluator_accepts(compiled_from(*val), model_of(*doc)),
{
    val.inner.iter_errors(&to_serde(doc)).map(
        |e| ValidationError {
            message: e.to_string(),
            instance_path: e.instance_path().to_string(),
        },
    ).collect()
}

/// A reusable validator: a hardened schema description, compiled once.
pub struct Schema {
    validator: CompiledValidator,
}

impl Schema {
    /// The hardened description this validator enforces.
    pub closed spec fn description(self) -> JsonModel {
        compiled_from(self.validator)
    }

    /// Harden `data` and compile it.  Construction succeeds exactly when
    /// the evaluator accepts the strictified description; on success the
    /// validator enforces exactly that description, and a description the
    /// evaluator's dialect refuses is reported as a `SchemaCompileError`.
    pub fn new(data: Value) -> (r: Result<Schema, SchemaCompileError>)
        ensures
            r is Ok <==> draft7_compiles(strict_m(model_of(data))),
            r matches Ok(s) ==> s.description() == strict_m(model_of(data)),
    {
        let hardened = strictify(&data);
        match compile_draft7(&hardened) {
            Ok(val) => Ok(Schema { validator: val }),
            Err(e) => Err(e),
        }
    }

    /// The evaluator's verdict on `data` under this hardened description.
    pub fn is_valid(&self, data: &Value) -> (r: bool)
        ensures
            r == evaluator_accepts(self.description(), model_of(*data)),
    {
        eval_is_valid(&self.validator, data)
    }

    /// Every failure the evaluator identifies in `data`; empty exactly
    /// when `data` is valid.
    pub fn validate(&self, data: &Value) -> (r: Vec<ValidationError>)
        ensures
            r@.len() == evaluator_errors(self.description(), model_of(*data)).len(),
            forall|i: int|
                0 <= i < r@.len() ==> (r@[i].message@, r@[i].instance_path@) == evaluator_errors(
                    self.description(),
                    model_of(*data),
                )[i],
            (r@.len() == 0) == evaluator_accepts(self.description(), model_of(*data)),
    {
        eval_errors(&self.validator, data)
    }
}

} // verus!
