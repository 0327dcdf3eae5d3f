//! Decoding: from raw bytes to a generic value.
//!
//! The TOML grammar itself is the business of the `toml` crate; the
//! library states what it relies on here, as contracts over two named
//! results, and works with the decoded value from then on.

use vstd::prelude::*;

use crate::value::{SpecValue, GenericValue, wf};

verus! {

/// A decode failure: the bytes were not a well-formed TOML document
/// (not UTF-8, a syntax error, a duplicate key, a malformed date, and
/// so on).
#[derive(Clone, Copy, PartialEq, Eq, Structural, Debug)]
pub struct DecodeError;

#[verifier::external_type_specification]
#[verifier::external_body]
pub struct ExTomlValue(toml::Value);

/// The document that a byte sequence denotes: `Some` of its model
/// exactly when the bytes form a valid TOML document, `None`
/// otherwise. Named, not written out: the TOML grammar is the outside
/// decoder's to define.
pub uninterp spec fn toml_doc(bytes: Seq<u8>) -> Option<SpecValue>;

/// The model of a decoded `toml::Value`: the same tree, with floats
/// rendered as their JSON number token and date/times as their
/// standard text.
pub uninterp spec fn toml_value_model(t: toml::Value) -> SpecValue;

/// Relies on `toml::from_slice`: parses the bytes as a TOML document,
/// returning its value exactly when they form one. An empty input is
/// the empty document, which denotes an empty top-level table.
#[verifier::external_body]
fn parse_toml(bytes: &[u8]) -> (r: Result<toml::Value, DecodeError>)
    ensures
        r matches Ok(t) ==> toml_doc(bytes@) == Some(toml_value_model(t)),
        r is Ok <==> toml_doc(bytes@) is Some,
        r is Err ==> bytes@.len() > 0,
        r matches Ok(t) ==> (bytes@.len() == 0 ==> toml_value_model(t) == SpecValue::Table(
            Seq::empty(),
        )),
{
    match toml::from_slice::<toml::Value>(bytes) {
        Ok(t) => Ok(t),
        Err(_) => Err(DecodeError),
    }
}

/// Relies on the shape of `toml::Value` (one variant per TOML data
/// shape, tables iterated in declaration order with each key bound
/// once), on `Datetime`'s standard textual form, and on `serde_json`'s
/// rendering of a float as a JSON number token (`null` when the float
/// is not finite).
#[verifier::external_body]
fn from_toml(t: toml::Value) -> (r: GenericValue)
    ensures
        r@ == toml_value_model(t),
        wf(r@),
{
    match t {
        toml::Value::String(s) => GenericValue::Text(s),
        toml::Value::Integer(i) => GenericValue::Int(i),
        toml::Value::Float(f) => GenericValue::Float(
            serde_json::to_string(&f).unwrap_or(String::new()),
        ),
        toml::Value::Boolean(b) => GenericValue::Bool(b),
        toml::Value::Datetime(d) => GenericValue::Datetime(d.to_string()),
        toml::Value::Array(a) => GenericValue::Array(a.into_iter().map(from_toml).collect()),
        toml::Value::Table(m) => GenericValue::Table(
            m.into_iter().map(|(k, v)| (k, from_toml(v))).collect(),
        ),
    }
}

/// Decodes a TOML document into a generic value: `Ok` of the
/// document's well-formed model exactly when the bytes form a valid
/// TOML document, `Err` otherwise.
pub fn decode(bytes: &[u8]) -> (r: Result<GenericValue, DecodeError>)
    ensures
        r matches Ok(v) ==> toml_doc(bytes@) == Some(v@) && wf(v@),
        r is Ok <==> toml_doc(bytes@) is Some,
        bytes@.len() == 0 ==> (r matches Ok(v) && v@ == SpecValue::Table(
            Seq::<(Seq<char>, SpecValue)>::empty(),
        )),
{
    match parse_toml(bytes) {
        Ok(t) => Ok(from_toml(t)),
        Err(e) => Err(e),
    }
}

} // verus!
