//! Trusted boundary to the serialization crates.
//!
//! Decoding and encoding of documents is done by outside crates and is
//! believed, not proved: each wrapper here states no more of a call than the
//! crate's own documentation gives.  Every call is a pure function of its
//! argument — whether a byte text decodes and to which value, and whether a
//! value encodes and to which text, depend on that argument alone — so those
//! results are given names and the wrappers state them exactly.

use vstd::prelude::*;

verus! {

#[verifier::external_type_specification]
#[verifier::external_body]
pub struct ExValue(serde_value::Value);

#[verifier::external_type_specification]
#[verifier::external_body]
pub struct ExJsonError(serde_json::Error);

#[verifier::external_type_specification]
#[verifier::external_body]
pub struct ExYamlError(serde_yaml::Error);

#[verifier::external_type_specification]
#[verifier::external_body]
pub struct ExTomlDeError(toml::de::Error);

#[verifier::external_type_specification]
#[verifier::external_body]
pub struct ExTomlSerError(toml::ser::Error);

/// Whether the bytes form a JSON document that decodes to a value.
pub uninterp spec fn json_decodes(b: Seq<u8>) -> bool;

/// Whether the bytes form a YAML document that decodes to a value.
pub uninterp spec fn yaml_decodes(b: Seq<u8>) -> bool;

/// Whether the bytes form a TOML document that decodes to a value.
pub uninterp spec fn toml_decodes(b: Seq<u8>) -> bool;

/// The value a JSON byte text decodes to, where it decodes at all.
pub uninterp spec fn json_value_of(b: Seq<u8>) -> serde_value::Value;

/// The value a YAML byte text decodes to, where it decodes at all.
pub uninterp spec fn yaml_value_of(b: Seq<u8>) -> serde_value::Value;

/// The value a TOML byte text decodes to, where it decodes at all.
pub uninterp spec fn toml_value_of(b: Seq<u8>) -> serde_value::Value;

/// Whether a value is representable as JSON text.
pub uninterp spec fn json_encodes(v: serde_value::Value) -> bool;

/// Whether a value is representable as YAML text.
pub uninterp spec fn yaml_encodes(v: serde_value::Value) -> bool;

/// Whether a value is representable as TOML text.
pub uninterp spec fn toml_encodes(v: serde_value::Value) -> bool;

/// The pretty-printed JSON text of a value, where one exists.
pub uninterp spec fn json_text_of(v: serde_value::Value) -> Seq<char>;

/// The YAML text of a value, where one exists.
pub uninterp spec fn yaml_text_of(v: serde_value::Value) -> Seq<char>;

/// The TOML text of a value, where one exists.
pub uninterp spec fn toml_text_of(v: serde_value::Value) -> Seq<char>;

/// Relies on `serde_json::from_slice`: decoding is a function of the bytes
/// alone; it yields a value exactly when the bytes form a JSON document.
#[verifier::external_body]
pub(crate) fn decode_json(input: &[u8]) -> (r: Result<serde_value::Value, serde_json::Error>)
    ensures
        r is Ok <==> json_decodes(input@),
        r matches Ok(v) ==> v == json_value_of(input@),
{
    serde_json::from_slice(input)
}

/// Relies on `serde_yaml::from_slice`: decoding is a function of the bytes
/// alone; it yields a value exactly when the bytes form a YAML document.
#[verifier::external_body]
pub(crate) fn decode_yaml(input: &[u8]) -> (r: Result<serde_value::Value, serde_yaml::Error>)
    ensures
        r is Ok <==> yaml_decodes(input@),
        r matches Ok(v) ==> v == yaml_value_of(input@),
{
    serde_yaml::from_slice(input)
}

/// Relies on `toml::from_slice`: decoding is a function of the bytes alone;
/// it yields a value exactly when the bytes form a TOML document.  Unlike
/// the other two decoders, this one recurses with the nesting of the input
/// and has no depth limit of its own.
#[verifier::external_body]
pub(crate) fn decode_toml(input: &[u8]) -> (r: Result<serde_value::Value, toml::de::Error>)
    ensures
        r is Ok <==> toml_decodes(input@),
        r matches Ok(v) ==> v == toml_value_of(input@),
{
    toml::from_slice(input)
}

/// Relies on `serde_json::to_string_pretty`: encoding is a function of the
/// value alone; it yields that value's JSON text exactly when the value is
/// representable as JSON.
#[verifier::external_body]
pub(crate) fn encode_json(value: &serde_value::Value) -> (r: Result<String, serde_json::Error>)
    ensures
        r is Ok <==> json_encodes(*value),
        r matches Ok(s) ==> s@ == json_text_of(*value),
{
    serde_json::to_string_pretty(value)
}

/// Relies on `serde_yaml::to_string`: encoding is a function of the value
/// alone; it yields that value's YAML text exactly when the value is
/// representable as YAML.
#[verifier::external_body]
pub(crate) fn encode_yaml(value: &serde_value::Value) -> (r: Result<String, serde_yaml::Error>)
    ensures
        r is Ok <==> yaml_encodes(*value),
        r matches Ok(s) ==> s@ == yaml_text_of(*value),
{
    serde_yaml::to_string(value)
}

/// Relies on `toml::to_string`: encoding is a function of the value alone;
/// it yields that value's TOML text exactly when the value is representable
/// as TOML (a null, for one, is not).
#[verifier::external_body]
pub(crate) fn encode_toml(value: &serde_value::Value) -> (r: Result<String, toml::ser::Error>)
    ensures
        r is Ok <==> toml_encodes(*value),
        r matches Ok(s) ==> s@ == toml_text_of(*value),
{
    toml::to_string(value)
}

} // verus!
