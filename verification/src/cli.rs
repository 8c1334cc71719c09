//! The format-conversion surface around the selector parser: which
//! serialization format to read and write, and the decode-then-encode step
//! that a command-line front end drives.  Reading input and printing output
//! belong to that front end; everything here is a pure function of its
//! arguments, up to the trusted decoding and encoding calls in
//! [`crate::codec`].

use vstd::prelude::*;

use crate::codec::{
    decode_json, decode_toml, decode_yaml, encode_json, encode_toml, encode_yaml, json_decodes,
    json_encodes, json_text_of, json_value_of, toml_decodes, toml_encodes, toml_text_of,
    toml_value_of, yaml_decodes, yaml_encodes, yaml_text_of, yaml_value_of,
};

verus! {

/// A serialization format of the documents being converted.
#[derive(Debug, Clone, Copy, PartialEq, Eq, Structural)]
pub enum Format {
    Yaml,
    Toml,
    Json,
}

/// The settled options of one run: the formats to read and write, and the
/// file to read (standard input when absent).  A command-line front end
/// fills this in; nothing here reads arguments itself.
#[derive(Debug, Clone)]
pub struct Opts {
    /// The format of the input data (`None` means the default applies).
    pub input_format: Option<Format>,
    /// The output format (`None` means the default applies).
    pub output_format: Option<Format>,
    /// The name of the file to open (or standard input).
    pub file: Option<String>,
}

impl Opts {
    /// The format to decode with: the stated input format, or JSON.
    pub fn effective_input_format(&self) -> (f: Format)
        ensures
            f == match self.input_format {
                Some(g) => g,
                None => Format::Json,
            },
    {
        match self.input_format {
            Some(g) => g,
            None => Format::Json,
        }
    }

    /// The format to encode with: the stated output format, or JSON.
    pub fn effective_output_format(&self) -> (f: Format)
        ensures
            f == match self.output_format {
                Some(g) => g,
                None => Format::Json,
            },
    {
        match self.output_format {
            Some(g) => g,
            None => Format::Json,
        }
    }
}

/// Why decoding failed; each variant carries the decoder's own error and
/// marks which format was being read.
#[derive(Debug)]
pub enum DecodeError {
    Json(serde_json::Error),
    Yaml(serde_yaml::Error),
    Toml(toml::de::Error),
}

/// The format a decode error speaks of.
pub open spec fn decode_error_format(e: DecodeError) -> Format {
    match e {
        DecodeError::Json(_) => Format::Json,
        DecodeError::Yaml(_) => Format::Yaml,
        DecodeError::Toml(_) => Format::Toml,
    }
}

/// Why encoding failed; each variant carries the encoder's own error and
/// marks which format was being written.
#[derive(Debug)]
pub enum EncodeError {
    Json(serde_json::Error),
    Yaml(serde_yaml::Error),
    Toml(toml::ser::Error),
}

/// The format an encode error speaks of.
pub open spec fn encode_error_format(e: EncodeError) -> Format {
    match e {
        EncodeError::Json(_) => Format::Json,
        EncodeError::Yaml(_) => Format::Yaml,
        EncodeError::Toml(_) => Format::Toml,
    }
}

/// Whether the bytes decode as a document of the format.
pub open spec fn decodes(format: Format, b: Seq<u8>) -> bool {
    match format {
        Format::Json => json_decodes(b),
        Format::Yaml => yaml_decodes(b),
        Format::Toml => toml_decodes(b),
    }
}

/// The value the bytes decode to in the format, where they decode at all.
pub open spec fn value_of(format: Format, b: Seq<u8>) -> serde_value::Value {
    match format {
        Format::Json => json_value_of(b),
        Format::Yaml => yaml_value_of(b),
        Format::Toml => toml_value_of(b),
    }
}

/// Whether a value is representable as text of the format.
pub open spec fn encodes(format: Format, v: serde_value::Value) -> bool {
    match format {
        Format::Json => json_encodes(v),
        Format::Yaml => yaml_encodes(v),
        Format::Toml => toml_encodes(v),
    }
}

/// The text of a value in the format, where one exists.
pub open spec fn encoded_text(format: Format, v: serde_value::Value) -> Seq<char> {
    match format {
        Format::Json => json_text_of(v),
        Format::Yaml => yaml_text_of(v),
        Format::Toml => toml_text_of(v),
    }
}

/// Decodes a byte text in the given format: yields the bytes' value exactly
/// when they form a well-formed document of that format.
pub fn deserialize(input: &[u8], format: Format) -> (r: Result<serde_value::Value, DecodeError>)
    ensures
        r is Ok <==> decodes(format, input@),
        r matches Ok(v) ==> v == value_of(format, input@),
        r matches Err(e) ==> decode_error_format(e) == format,
{
    match format {
        Format::Json => match decode_json(input) {
            Ok(v) => Ok(v),
            Err(e) => Err(DecodeError::Json(e)),
        },
        Format::Yaml => match decode_yaml(input) {
            Ok(v) => Ok(v),
            Err(e) => Err(DecodeError::Yaml(e)),
        },
        Format::Toml => match decode_toml(input) {
            Ok(v) => Ok(v),
            Err(e) => Err(DecodeError::Toml(e)),
        },
    }
}

/// Encodes a value in the given format: yields the value's text exactly when
/// the value is representable in that format.
pub fn serialize(value: &serde_value::Value, format: Format) -> (r: Result<String, EncodeError>)
    ensures
        r is Ok <==> encodes(format, *value),
        r matches Ok(s) ==> s@ == encoded_text(format, *value),
        r matches Err(e) ==> encode_error_format(e) == format,
{
    match format {
        Format::Json => match encode_json(value) {
            Ok(s) => Ok(s),
            Err(e) => Err(EncodeError::Json(e)),
        },
        Format::Yaml => match encode_yaml(value) {
            Ok(s) => Ok(s),
            Err(e) => Err(EncodeError::Yaml(e)),
        },
        Format::Toml => match encode_toml(value) {
            Ok(s) => Ok(s),
            Err(e) => Err(EncodeError::Toml(e)),
        },
    }
}

/// Why a whole conversion failed: at the decoding or at the encoding end.
#[derive(Debug)]
pub enum ConvertError {
    Decode(DecodeError),
    Encode(EncodeError),
}

/// Decodes `input` in `in_format` and re-encodes the value in `out_format`:
/// the computing half of a convert-and-print run.  Succeeds, with the
/// decoded value's `out_format` text, exactly when the bytes decode and
/// their value is representable in `out_format`; otherwise the error says
/// which end failed and at which format.
pub fn convert(input: &[u8], in_format: Format, out_format: Format) -> (r: Result<
    String,
    ConvertError,
>)
    ensures
        r is Ok <==> decodes(in_format, input@) && encodes(
            out_format,
            value_of(in_format, input@),
        ),
        r matches Ok(s) ==> s@ == encoded_text(out_format, value_of(in_format, input@)),
        r matches Err(ConvertError::Decode(e)) ==> !decodes(in_format, input@)
            && decode_error_format(e) == in_format,
        r matches Err(ConvertError::Encode(e)) ==> decodes(in_format, input@) && !encodes(
            out_format,
            value_of(in_format, input@),
        ) && encode_error_format(e) == out_format,
{
    let value = match deserialize(input, in_format) {
        Ok(v) => v,
        Err(e) => {
            return Err(ConvertError::Decode(e));
        },
    };
    match serialize(&value, out_format) {
        Ok(s) => Ok(s),
        Err(e) => Err(ConvertError::Encode(e)),
    }
}

} // verus!
