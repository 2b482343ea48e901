use td_rp::{decode_field, decode_map, decode_number, decode_proto, decode_str_raw, read_field};
use td_rp::{encode_field, encode_map, encode_number, encode_proto, encode_str_raw, write_field};
use td_rp::{Buffer, Config, Dict, ErrorKind, Field, Proto, Value};

fn schema(fields: &[(&str, u16, &str)], protos: &[(&str, &str, &[&str])]) -> Config {
    let mut field = Dict::new();
    for (name, index, pattern) in fields {
        field.insert(name.to_string(), Field { index: *index, pattern: pattern.to_string() });
    }
    let mut proto = Dict::new();
    for (name, msg_type, args) in protos {
        proto.insert(
            name.to_string(),
            Proto {
                msg_type: msg_type.to_string(),
                args: args.iter().map(|a| a.to_string()).collect(),
            },
        );
    }
    Config::new_by_map(field, proto)
}

fn bytes_of(config: &Config, value: &Value) -> Vec<u8> {
    let mut buffer = Buffer::new();
    encode_field(&mut buffer, config, value).unwrap();
    buffer.get_data().clone()
}

fn buffer_of(bytes: &[u8]) -> Buffer {
    let mut buffer = Buffer::new();
    buffer.write(bytes);
    buffer
}

fn round_trip(config: &Config, value: &Value) {
    let mut buffer = Buffer::new();
    encode_field(&mut buffer, config, value).unwrap();
    let end = buffer.get_wpos();
    let read = decode_field(&mut buffer, config).unwrap();
    assert_eq!(&read, value);
    assert_eq!(buffer.get_rpos(), end);
}

fn dict(entries: Vec<(&str, Value)>) -> Dict<Value> {
    let mut d = Dict::new();
    for (name, value) in entries {
        d.insert(name.to_string(), value);
    }
    d
}

#[test]
fn u16_field_is_header_then_low_byte_first() {
    let config = Config::new_empty();
    let mut buffer = Buffer::new();
    encode_field(&mut buffer, &config, &Value::U16(0x1234)).unwrap();
    let mut raw = [0u8; 6];
    assert_eq!(buffer.read(&mut raw), 6);
    assert_eq!(raw, [0x00, 0x00, 0x03, 0x00, 0x34, 0x12]);
    assert_eq!(buffer.read(&mut raw), 0);
}

#[test]
fn payloads_of_each_type() {
    let config = Config::new_empty();
    assert_eq!(bytes_of(&config, &Value::Nil), vec![0, 0, 0, 0]);
    assert_eq!(bytes_of(&config, &Value::U8(0xab)), vec![0, 0, 1, 0, 0xab, 0]);
    assert_eq!(bytes_of(&config, &Value::I8(-2)), vec![0, 0, 2, 0, 0xfe, 0]);
    assert_eq!(bytes_of(&config, &Value::I16(-2)), vec![0, 0, 4, 0, 0xfe, 0xff]);
    assert_eq!(
        bytes_of(&config, &Value::U32(0x12345678)),
        vec![0, 0, 5, 0, 0x78, 0x56, 0x34, 0x12]
    );
    assert_eq!(bytes_of(&config, &Value::I32(-2)), vec![0, 0, 6, 0, 0xfe, 0xff, 0xff, 0xff]);
    assert_eq!(bytes_of(&config, &Value::Float(1500)), vec![0, 0, 7, 0, 0xdc, 0x05, 0, 0]);
    assert_eq!(bytes_of(&config, &Value::Float(-1)), vec![0, 0, 7, 0, 0xff, 0xff, 0xff, 0xff]);
    assert_eq!(
        bytes_of(&config, &Value::Str("abc".to_string())),
        vec![0, 0, 8, 0, 3, 0, b'a', b'b', b'c']
    );
    assert_eq!(bytes_of(&config, &Value::Str(String::new())), vec![0, 0, 8, 0, 0, 0]);
    assert_eq!(bytes_of(&config, &Value::Raw(vec![9, 8, 7])), vec![0, 0, 9, 0, 3, 0, 9, 8, 7]);
    assert_eq!(bytes_of(&config, &Value::Dict(Dict::new())), vec![0, 0, 10, 0, 0, 0, 0, 0]);
    assert_eq!(bytes_of(&config, &Value::AI8(vec![])), vec![0, 0, 22, 0, 0, 0, 0, 0]);
    assert_eq!(
        bytes_of(&config, &Value::AU16(vec![Value::U16(1), Value::U16(0x0203)])),
        vec![0, 0, 23, 0, 0, 0, 3, 0, 1, 0, 0, 0, 3, 0, 3, 2, 0, 0, 0, 0]
    );
}

#[test]
fn text_is_written_as_utf8() {
    let config = Config::new_empty();
    assert_eq!(
        bytes_of(&config, &Value::Str("\u{e9}".to_string())),
        vec![0, 0, 8, 0, 2, 0, 0xc3, 0xa9]
    );
}

#[test]
fn map_entry_has_two_headers() {
    let config = schema(&[("name", 1, "str"), ("index", 2, "u16")], &[]);
    let value = Value::Dict(dict(vec![("index", Value::U16(7))]));
    assert_eq!(
        bytes_of(&config, &value),
        vec![0, 0, 10, 0, 2, 0, 3, 0, 0, 0, 3, 0, 7, 0, 0, 0, 0, 0]
    );
}

#[test]
fn map_entry_unknown_to_the_schema_is_not_written() {
    let config = schema(&[("index", 2, "u16")], &[]);
    let value = Value::Dict(dict(vec![("other", Value::U8(1)), ("index", Value::U16(7))]));
    assert_eq!(
        bytes_of(&config, &value),
        vec![0, 0, 10, 0, 2, 0, 3, 0, 0, 0, 3, 0, 7, 0, 0, 0, 0, 0]
    );
}

#[test]
fn scalars_round_trip() {
    let config = Config::new_empty();
    let values = vec![
        Value::Nil,
        Value::U8(0),
        Value::U8(255),
        Value::I8(-128),
        Value::I8(127),
        Value::U16(0),
        Value::U16(65535),
        Value::I16(-32768),
        Value::I16(32767),
        Value::U32(0),
        Value::U32(4294967295),
        Value::I32(-2147483648),
        Value::I32(2147483647),
        Value::Float(-2147483648),
        Value::Float(12345123),
        Value::Str(String::new()),
        Value::Str("I'm a chinese people \u{4e2d}\u{6587}".to_string()),
        Value::Raw(vec![]),
        Value::Raw(vec![0, 255, 128, 0xc3]),
    ];
    for value in &values {
        round_trip(&config, value);
    }
}

#[test]
fn arrays_round_trip() {
    let config = schema(&[("k", 4, "u8[]")], &[]);
    let values = vec![
        Value::AU8(vec![]),
        Value::AU8(vec![Value::U8(1), Value::U8(2)]),
        Value::AI8(vec![Value::I8(-1), Value::I8(1)]),
        Value::AU16(vec![Value::U16(1)]),
        Value::AI16(vec![Value::I16(-1)]),
        Value::AU32(vec![Value::U32(70000)]),
        Value::AI32(vec![Value::I32(-70000)]),
        Value::AFloat(vec![Value::Float(1), Value::Float(-1)]),
        Value::AStr(vec![Value::Str("a".to_string()), Value::Str(String::new())]),
        Value::ARaw(vec![Value::Raw(vec![1, 2]), Value::Raw(vec![])]),
        Value::AMap(vec![
            Value::Dict(Dict::new()),
            Value::Dict(dict(vec![("k", Value::AU8(vec![Value::U8(3)]))])),
        ]),
    ];
    for value in &values {
        round_trip(&config, value);
    }
}

#[test]
fn longest_text_round_trips() {
    let config = Config::new_empty();
    round_trip(&config, &Value::Raw(vec![7; 65535]));
    round_trip(&config, &Value::Str("x".repeat(65535)));
}

#[test]
fn text_of_65536_bytes_is_written_with_length_zero() {
    let config = Config::new_empty();
    let bytes = bytes_of(&config, &Value::Raw(vec![7; 65536]));
    assert_eq!(bytes.len(), 4 + 2 + 65536);
    assert_eq!(&bytes[..7], &[0, 0, 9, 0, 0, 0, 7]);
    let mut buffer = buffer_of(&bytes);
    assert_eq!(decode_field(&mut buffer, &config).unwrap(), Value::Raw(vec![]));
    assert_eq!(buffer.get_rpos(), 6);
}

#[test]
fn map_round_trips_under_its_schema() {
    let config = schema(&[("name", 1, "str"), ("index", 2, "u16")], &[]);
    let value = Value::Dict(dict(vec![
        ("name", Value::Str("abc".to_string())),
        ("index", Value::U16(7)),
    ]));
    round_trip(&config, &value);
    let mut buffer = Buffer::new();
    encode_field(&mut buffer, &config, &value).unwrap();
    match decode_field(&mut buffer, &config).unwrap() {
        Value::Dict(found) => {
            assert_eq!(found.len(), 2);
            assert_eq!(found.get("name"), Some(&Value::Str("abc".to_string())));
            assert_eq!(found.get("index"), Some(&Value::U16(7)));
        }
        _ => panic!("a map was written"),
    }
}

#[test]
fn nested_maps_round_trip() {
    let config = schema(&[("a", 1, "map"), ("b", 2, "map[]"), ("c", 3, "nil")], &[]);
    let inner = Value::Dict(dict(vec![("c", Value::Nil), ("a", Value::Dict(Dict::new()))]));
    let value = Value::Dict(dict(vec![
        ("a", inner.clone()),
        ("b", Value::AMap(vec![inner.clone(), inner])),
    ]));
    round_trip(&config, &value);
}

#[test]
fn decoder_with_an_older_schema_drops_what_it_does_not_know() {
    let newer = schema(&[("name", 1, "str"), ("extra", 9, "map"), ("index", 2, "u16")], &[]);
    let older = schema(&[("name", 1, "str"), ("index", 2, "u16")], &[]);
    let value = Value::Dict(dict(vec![
        ("name", Value::Str("abc".to_string())),
        ("extra", Value::Dict(dict(vec![("index", Value::U16(1))]))),
        ("index", Value::U16(7)),
    ]));
    let mut buffer = Buffer::new();
    encode_field(&mut buffer, &newer, &value).unwrap();
    encode_field(&mut buffer, &newer, &Value::U32(5)).unwrap();
    let read = decode_field(&mut buffer, &older).unwrap();
    assert_eq!(
        read,
        Value::Dict(dict(vec![("name", Value::Str("abc".to_string())), ("index", Value::U16(7))]))
    );
    assert_eq!(decode_field(&mut buffer, &older).unwrap(), Value::U32(5));
    assert_eq!(buffer.get_rpos(), buffer.get_wpos());
}

#[test]
fn decoder_stores_under_its_own_name_for_the_index() {
    let writer = schema(&[("name", 1, "str")], &[]);
    let reader = schema(&[("title", 1, "str")], &[]);
    let value = Value::Dict(dict(vec![("name", Value::Str("abc".to_string()))]));
    let mut buffer = Buffer::new();
    encode_field(&mut buffer, &writer, &value).unwrap();
    assert_eq!(
        decode_field(&mut buffer, &reader).unwrap(),
        Value::Dict(dict(vec![("title", Value::Str("abc".to_string()))]))
    );
}

#[test]
fn later_entry_with_the_same_index_replaces_the_earlier() {
    let config = schema(&[("index", 2, "u16")], &[]);
    let bytes =
        [2, 0, 3, 0, 0, 0, 3, 0, 7, 0, 2, 0, 3, 0, 0, 0, 3, 0, 8, 0, 0, 0, 0, 0];
    let mut buffer = buffer_of(&bytes);
    assert_eq!(
        decode_map(&mut buffer, &config).unwrap(),
        Value::Dict(dict(vec![("index", Value::U16(8))]))
    );
    assert_eq!(buffer.get_rpos(), 24);
}

#[test]
fn encoder_rejects_a_mixed_array() {
    let config = Config::new_empty();
    let mut buffer = Buffer::new();
    let value = Value::AU8(vec![Value::U8(1), Value::U16(2), Value::U8(3)]);
    let err = encode_field(&mut buffer, &config, &value).unwrap_err();
    assert_eq!(err.kind(), ErrorKind::TypeNotMatchError);
    assert_eq!(buffer.get_data(), &vec![0, 0, 21, 0, 0, 0, 1, 0, 1, 0]);
}

#[test]
fn encoder_rejects_nil_in_an_array() {
    let config = Config::new_empty();
    let mut buffer = Buffer::new();
    let err = encode_field(&mut buffer, &config, &Value::AMap(vec![Value::Nil])).unwrap_err();
    assert_eq!(err.kind(), ErrorKind::TypeNotMatchError);
}

#[test]
fn encoder_rejects_a_mixed_array_inside_a_map() {
    let config = schema(&[("k", 4, "u8[]")], &[]);
    let mut buffer = Buffer::new();
    let value = Value::Dict(dict(vec![("k", Value::AU8(vec![Value::I8(1)]))]));
    let err = encode_field(&mut buffer, &config, &value).unwrap_err();
    assert_eq!(err.kind(), ErrorKind::TypeNotMatchError);
    assert_eq!(buffer.get_data(), &vec![0, 0, 10, 0, 4, 0, 21, 0, 0, 0, 21, 0]);
}

#[test]
fn decoder_rejects_a_mixed_array() {
    let config = Config::new_empty();
    let bytes = [0, 0, 21, 0, 0, 0, 1, 0, 1, 0, 0, 0, 3, 0, 2, 0, 0, 0, 0, 0];
    let mut buffer = buffer_of(&bytes);
    let err = decode_field(&mut buffer, &config).unwrap_err();
    assert_eq!(err.kind(), ErrorKind::TypeNotMatchError);
    assert_eq!(buffer.get_rpos(), 16);
}

#[test]
fn decoder_fails_for_want_of_bytes() {
    let config = Config::new_empty();
    let cases: Vec<Vec<u8>> = vec![
        vec![],
        vec![0],
        vec![0, 0, 3],
        vec![0, 0, 3, 0, 1],
        vec![0, 0, 5, 0, 1, 2, 3],
        vec![0, 0, 8, 0, 3, 0, b'a'],
        vec![0, 0, 9, 0, 1],
        vec![0, 0, 10, 0],
        vec![0, 0, 21, 0, 0, 0, 1, 0, 1, 0],
    ];
    for bytes in cases {
        let mut buffer = buffer_of(&bytes);
        let err = decode_field(&mut buffer, &config).unwrap_err();
        assert_eq!(err.kind(), ErrorKind::NoLeftSpaceError);
        assert_eq!(buffer.get_rpos(), bytes.len());
    }
}

#[test]
fn decoder_rejects_text_that_is_not_utf8() {
    let config = Config::new_empty();
    let mut buffer = buffer_of(&[0, 0, 8, 0, 2, 0, 0xff, 0xfe, 9]);
    let err = decode_field(&mut buffer, &config).unwrap_err();
    assert_eq!(err.kind(), ErrorKind::StringFormatError);
    assert_eq!(buffer.get_rpos(), 8);
    let mut raw = buffer_of(&[0, 0, 9, 0, 2, 0, 0xff, 0xfe]);
    assert_eq!(decode_field(&mut raw, &config).unwrap(), Value::Raw(vec![0xff, 0xfe]));
}

#[test]
fn unknown_type_code_counts_as_nil() {
    let config = Config::new_empty();
    let mut buffer = buffer_of(&[5, 0, 11, 0, 0, 0, 0, 1, 0, 0, 1, 0, 7, 0]);
    assert_eq!(decode_field(&mut buffer, &config).unwrap(), Value::Nil);
    assert_eq!(buffer.get_rpos(), 4);
    assert_eq!(decode_field(&mut buffer, &config).unwrap(), Value::Nil);
    assert_eq!(buffer.get_rpos(), 8);
    assert_eq!(decode_field(&mut buffer, &config).unwrap(), Value::U8(7));
}

#[test]
fn number_payloads() {
    let mut buffer = Buffer::new();
    encode_number(&mut buffer, &Value::I16(-300)).unwrap();
    encode_number(&mut buffer, &Value::U8(9)).unwrap();
    encode_number(&mut buffer, &Value::Float(-1500)).unwrap();
    assert_eq!(buffer.get_data(), &vec![0xd4, 0xfe, 9, 0, 0x24, 0xfa, 0xff, 0xff]);
    assert_eq!(decode_number(&mut buffer, td_rp::TYPE_I16).unwrap(), Value::I16(-300));
    assert_eq!(decode_number(&mut buffer, td_rp::TYPE_U8).unwrap(), Value::U8(9));
    assert_eq!(decode_number(&mut buffer, td_rp::TYPE_FLOAT).unwrap(), Value::Float(-1500));
    let err = decode_number(&mut buffer, td_rp::TYPE_U8).unwrap_err();
    assert_eq!(err.kind(), ErrorKind::NoLeftSpaceError);
}

#[test]
fn padding_byte_of_an_8_bit_number_is_skipped() {
    let mut buffer = buffer_of(&[0x80, 0x55, 0x7f, 0x55]);
    assert_eq!(decode_number(&mut buffer, td_rp::TYPE_I8).unwrap(), Value::I8(-128));
    assert_eq!(decode_number(&mut buffer, td_rp::TYPE_I8).unwrap(), Value::I8(127));
}

#[test]
fn text_payloads() {
    let mut buffer = Buffer::new();
    encode_str_raw(&mut buffer, &Value::Str("hi".to_string())).unwrap();
    encode_str_raw(&mut buffer, &Value::Raw(vec![1])).unwrap();
    assert_eq!(buffer.get_data(), &vec![2, 0, b'h', b'i', 1, 0, 1]);
    assert_eq!(
        decode_str_raw(&mut buffer, td_rp::TYPE_STR).unwrap(),
        Value::Str("hi".to_string())
    );
    assert_eq!(decode_str_raw(&mut buffer, td_rp::TYPE_RAW).unwrap(), Value::Raw(vec![1]));
}

#[test]
fn headers() {
    let mut buffer = Buffer::new();
    let field = Field { index: 0x0102, pattern: "i8[]".to_string() };
    assert_eq!(write_field(&mut buffer, Some(&field)).unwrap(), true);
    assert_eq!(write_field(&mut buffer, None).unwrap(), false);
    let odd = Field { index: 3, pattern: "string".to_string() };
    assert_eq!(write_field(&mut buffer, Some(&odd)).unwrap(), true);
    assert_eq!(buffer.get_data(), &vec![2, 1, 22, 0, 3, 0, 0, 0]);
    let read = read_field(&mut buffer).unwrap();
    assert_eq!(read.index, 0x0102);
    assert_eq!(read.pattern, "i8[]");
    assert!(!read.is_nil_type());
    let read = read_field(&mut buffer).unwrap();
    assert_eq!(read.index, 3);
    assert_eq!(read.pattern, "nil");
    assert!(!read.is_nil_type());
    let err = read_field(&mut buffer).unwrap_err();
    assert_eq!(err.kind(), ErrorKind::NoLeftSpaceError);
}

#[test]
fn map_payload() {
    let config = schema(&[("index", 2, "u16")], &[]);
    let mut buffer = Buffer::new();
    let value = Value::Dict(dict(vec![("index", Value::U16(7))]));
    encode_map(&mut buffer, &config, &value).unwrap();
    assert_eq!(buffer.get_data(), &vec![2, 0, 3, 0, 0, 0, 3, 0, 7, 0, 0, 0, 0, 0]);
    assert_eq!(decode_map(&mut buffer, &config).unwrap(), value);
}

#[test]
fn message_is_name_then_arguments_then_marker() {
    let config = schema(&[], &[("op", "server", &["u8", "str"])]);
    let mut buffer = Buffer::new();
    let args = vec![Value::U8(5), Value::Str("x".to_string())];
    encode_proto(&mut buffer, &config, &"op".to_string(), args.clone()).unwrap();
    assert_eq!(
        buffer.get_data(),
        &vec![2, 0, b'o', b'p', 0, 0, 1, 0, 5, 0, 0, 0, 8, 0, 1, 0, b'x', 0, 0, 0, 0]
    );
    let (name, read) = decode_proto(&mut buffer, &config).unwrap();
    assert_eq!(name, "op");
    assert_eq!(read, args);
    assert_eq!(buffer.get_rpos(), buffer.get_wpos());
}

#[test]
fn message_without_arguments() {
    let config = schema(&[], &[("ping", "client", &[])]);
    let mut buffer = Buffer::new();
    encode_proto(&mut buffer, &config, &"ping".to_string(), vec![]).unwrap();
    let (name, read) = decode_proto(&mut buffer, &config).unwrap();
    assert_eq!(name, "ping");
    assert!(read.is_empty());
}

#[test]
fn encoder_rejects_an_unknown_message() {
    let config = schema(&[], &[("op", "server", &["u8"])]);
    let mut buffer = Buffer::new();
    let err =
        encode_proto(&mut buffer, &config, &"other".to_string(), vec![Value::U8(1)]).unwrap_err();
    assert_eq!(err.kind(), ErrorKind::MissingError);
    assert_eq!(buffer.len(), 0);
}

#[test]
fn encoder_rejects_a_wrong_number_of_arguments() {
    let config = schema(&[], &[("op", "server", &["u8"])]);
    let mut buffer = Buffer::new();
    let err = encode_proto(&mut buffer, &config, &"op".to_string(), vec![]).unwrap_err();
    assert_eq!(err.kind(), ErrorKind::TypeNotMatchError);
    let err = encode_proto(
        &mut buffer,
        &config,
        &"op".to_string(),
        vec![Value::U8(1), Value::U8(2)],
    )
    .unwrap_err();
    assert_eq!(err.kind(), ErrorKind::TypeNotMatchError);
    assert_eq!(buffer.len(), 0);
}

#[test]
fn decoder_rejects_an_unknown_message() {
    let writer = schema(&[], &[("op", "server", &["u8"])]);
    let reader = schema(&[], &[("other", "server", &["u8"])]);
    let mut buffer = Buffer::new();
    encode_proto(&mut buffer, &writer, &"op".to_string(), vec![Value::U8(1)]).unwrap();
    let err = decode_proto(&mut buffer, &reader).unwrap_err();
    assert_eq!(err.kind(), ErrorKind::MissingError);
    assert_eq!(buffer.get_rpos(), buffer.get_wpos());
}

#[test]
fn decoder_rejects_a_wrong_number_of_arguments() {
    let writer = schema(&[], &[("op", "server", &["u8"])]);
    let reader = schema(&[], &[("op", "server", &["u8", "u8"])]);
    let mut buffer = Buffer::new();
    encode_proto(&mut buffer, &writer, &"op".to_string(), vec![Value::U8(1)]).unwrap();
    let err = decode_proto(&mut buffer, &reader).unwrap_err();
    assert_eq!(err.kind(), ErrorKind::TypeNotMatchError);
}

#[test]
fn decoder_of_messages_fails_for_want_of_bytes() {
    let config = schema(&[], &[("op", "server", &["u8"])]);
    let mut buffer = buffer_of(&[2, 0, b'o', b'p', 0, 0, 1, 0, 5, 0]);
    let err = decode_proto(&mut buffer, &config).unwrap_err();
    assert_eq!(err.kind(), ErrorKind::NoLeftSpaceError);
    let mut bad = buffer_of(&[1, 0, 0xff, 0, 0, 0, 0]);
    let err = decode_proto(&mut bad, &config).unwrap_err();
    assert_eq!(err.kind(), ErrorKind::StringFormatError);
}

#[test]
fn messages_follow_one_another() {
    let config = schema(&[], &[("a", "s", &["u8"]), ("b", "s", &[])]);
    let mut buffer = Buffer::new();
    encode_proto(&mut buffer, &config, &"a".to_string(), vec![Value::U8(1)]).unwrap();
    let first_end = buffer.get_wpos();
    encode_proto(&mut buffer, &config, &"b".to_string(), vec![]).unwrap();
    let (name, _) = decode_proto(&mut buffer, &config).unwrap();
    assert_eq!(name, "a");
    assert_eq!(buffer.get_rpos(), first_end);
    buffer.drain(first_end);
    assert_eq!(buffer.get_rpos(), 0);
    let (name, args) = decode_proto(&mut buffer, &config).unwrap();
    assert_eq!(name, "b");
    assert!(args.is_empty());
}

#[test]
fn decimal_numbers_keep_three_places() {
    let config = Config::new_empty();
    for x in [0.0f32, 1.0, -1.0, 12345.123, 0.0004, 0.0006, -0.0006, 2.7182817] {
        let thousandths = (x * 1000.0).round() as i32;
        let mut buffer = Buffer::new();
        encode_field(&mut buffer, &config, &Value::Float(thousandths)).unwrap();
        let back = match decode_field(&mut buffer, &config).unwrap() {
            Value::Float(val) => val as f32 / 1000.0,
            _ => panic!("a decimal number was written"),
        };
        assert_eq!(back, (x * 1000.0).round() / 1000.0);
        assert!((back as f64 - x as f64).abs() <= 0.0005 + 1e-6);
    }
}
