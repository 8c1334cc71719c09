use selparse::cli::{convert, deserialize, serialize, ConvertError, Format, Opts};

#[test]
fn json_decodes_and_reencodes() {
    let out = convert(b"{\"a\": 1}", Format::Json, Format::Json).unwrap();
    assert_eq!(out, "{\n  \"a\": 1\n}");
}

#[test]
fn json_to_yaml() {
    let out = convert(b"{\"a\": 1}", Format::Json, Format::Yaml).unwrap();
    assert_eq!(out, "---\na: 1\n");
}

#[test]
fn yaml_to_json() {
    let out = convert(b"a: 1\n", Format::Yaml, Format::Json).unwrap();
    assert_eq!(out, "{\n  \"a\": 1\n}");
}

#[test]
fn toml_to_json() {
    let out = convert(b"a = 1\n", Format::Toml, Format::Json).unwrap();
    assert_eq!(out, "{\n  \"a\": 1\n}");
}

#[test]
fn malformed_json_is_decode_error() {
    let err = convert(b"{\"a\": ", Format::Json, Format::Json).unwrap_err();
    assert!(matches!(err, ConvertError::Decode(_)));
}

#[test]
fn malformed_toml_is_decode_error() {
    let err = deserialize(b"= nonsense =", Format::Toml).unwrap_err();
    let _ = format!("{:?}", err);
}

#[test]
fn unrepresentable_toml_is_encode_error() {
    // JSON's null has no TOML representation
    let err = convert(b"{\"a\": null}", Format::Json, Format::Toml).unwrap_err();
    assert!(matches!(err, ConvertError::Encode(_)));
}

#[test]
fn deserialize_then_serialize_agree_with_convert() {
    let value = deserialize(b"{\"k\": [1, 2]}", Format::Json).unwrap();
    let direct = serialize(&value, Format::Json).unwrap();
    let via_convert = convert(b"{\"k\": [1, 2]}", Format::Json, Format::Json).unwrap();
    assert_eq!(direct, via_convert);
}

#[test]
fn input_format_defaults_to_json() {
    let opts = Opts { input_format: None, output_format: Some(Format::Yaml), file: None };
    assert_eq!(opts.effective_input_format(), Format::Json);
    assert_eq!(opts.effective_output_format(), Format::Yaml);
}

#[test]
fn output_format_defaults_to_json() {
    let opts = Opts { input_format: Some(Format::Toml), output_format: None, file: None };
    assert_eq!(opts.effective_input_format(), Format::Toml);
    assert_eq!(opts.effective_output_format(), Format::Json);
}

#[test]
fn malformed_yaml_is_decode_error() {
    let err = convert(b"a: [1", Format::Yaml, Format::Json).unwrap_err();
    assert!(matches!(err, ConvertError::Decode(_)));
}

#[test]
fn sequence_key_cannot_reach_json() {
    // YAML allows a sequence as a mapping key, JSON does not
    let err = convert(b"? [1, 2]\n: 3\n", Format::Yaml, Format::Json).unwrap_err();
    assert!(matches!(err, ConvertError::Encode(_)));
}

#[test]
fn codecs_are_deterministic() {
    let first = deserialize(b"{\"a\": [1, 2], \"b\": true}", Format::Json).unwrap();
    let second = deserialize(b"{\"a\": [1, 2], \"b\": true}", Format::Json).unwrap();
    assert_eq!(first, second);
    assert_eq!(
        serialize(&first, Format::Yaml).unwrap(),
        serialize(&second, Format::Yaml).unwrap()
    );
}
