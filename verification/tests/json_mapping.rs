use prost_reflect::dynamic::{DynamicMessage, MapEntryValue, MapKeyValue, Value};
use prost_reflect::json::{json_decode, json_encode};
use prost_reflect::test_file_descriptor;
use prost_reflect::JsonError;

fn parent_msg(fd: &prost_reflect::pool::FileDescriptor) -> DynamicMessage {
    let parent = fd.get_message_by_name(b"my.test.Parent").unwrap();
    DynamicMessage::new(&parent)
}

fn text(v: &[u8]) -> &str {
    std::str::from_utf8(v).unwrap()
}

#[test]
fn unset_optional_field_is_omitted() {
    let fd = test_file_descriptor().unwrap();
    let m = parent_msg(&fd);
    let out = json_encode(&fd, &m, false);
    assert_eq!(text(&out), "{}");
    // the same field forced to an empty string appears as ""
    let mut m2 = parent_msg(&fd);
    m2.set_field(&fd, 1, Value::Str(b"".to_vec())).unwrap();
    let out2 = json_encode(&fd, &m2, false);
    assert_eq!(text(&out2), "{\"name\":\"\"}");
}

#[test]
fn emit_defaults_writes_zero_values() {
    let fd = test_file_descriptor().unwrap();
    let child = fd.get_message_by_name(b"my.test.Child").unwrap();
    let m = DynamicMessage::new(&child);
    assert_eq!(text(&json_encode(&fd, &m, false)), "{}");
    // int64 defaults serialize as a quoted "0"
    assert_eq!(text(&json_encode(&fd, &m, true)), "{\"value\":\"0\"}");
}

#[test]
fn field_names_are_camel_cased() {
    let fd = test_file_descriptor().unwrap();
    let mut m = parent_msg(&fd);
    m.set_field(&fd, 3, Value::Uint32(4)).unwrap();
    assert_eq!(text(&json_encode(&fd, &m, false)), "{\"firstChoice\":4}");
}

#[test]
fn enum_values_serialize_as_names() {
    let fd = test_file_descriptor().unwrap();
    let mut m = parent_msg(&fd);
    m.set_field(&fd, 8, Value::EnumNumber(1)).unwrap();
    assert_eq!(text(&json_encode(&fd, &m, false)), "{\"status\":\"STATUS_OK\"}");
    // an undeclared number falls back to its numeric form
    m.set_field(&fd, 8, Value::EnumNumber(7)).unwrap();
    assert_eq!(text(&json_encode(&fd, &m, false)), "{\"status\":7}");
}

#[test]
fn map_keys_are_quoted_strings() {
    let fd = test_file_descriptor().unwrap();
    let mut m = parent_msg(&fd);
    m.set_field(
        &fd,
        7,
        Value::Mapping(vec![MapEntryValue {
            key: MapKeyValue::Uint64(5),
            value: Value::Str(b"five".to_vec()),
        }]),
    )
    .unwrap();
    assert_eq!(text(&json_encode(&fd, &m, false)), "{\"attrs\":{\"5\":\"five\"}}");
}

#[test]
fn json_round_trip_under_default_configuration() {
    let fd = test_file_descriptor().unwrap();
    let parent = fd.get_message_by_name(b"my.test.Parent").unwrap();
    let mut m = parent_msg(&fd);
    m.set_field(&fd, 1, Value::Str(b"quoted \"text\"\n".to_vec())).unwrap();
    let child_desc = fd.get_message_by_name(b"my.test.Child").unwrap();
    let mut child = DynamicMessage::new(&child_desc);
    child.set_field(&fd, 1, Value::Int64(-9)).unwrap();
    m.set_field(&fd, 2, Value::Message(child)).unwrap();
    m.set_field(
        &fd,
        6,
        Value::List(vec![Value::Int32(10), Value::Int32(-20)]),
    )
    .unwrap();
    m.set_field(
        &fd,
        7,
        Value::Mapping(vec![MapEntryValue {
            key: MapKeyValue::Uint64(1),
            value: Value::Str(b"one".to_vec()),
        }]),
    )
    .unwrap();
    m.set_field(&fd, 8, Value::EnumNumber(1)).unwrap();
    m.set_field(&fd, 5, Value::Str(b"why".to_vec())).unwrap();
    let out = json_encode(&fd, &m, false);
    let back = json_decode(&fd, parent.type_id(), &out, false, false).unwrap();
    // entries may sit in another order (text follows declaration order);
    // compare field by field
    for number in [1u32, 2, 3, 5, 6, 7, 8] {
        assert_eq!(back.get_field(&fd, number), m.get_field(&fd, number), "field {number}");
    }
    assert_eq!(back.unknown, m.unknown);
}

#[test]
fn unknown_json_key_is_rejected_unless_ignored() {
    let fd = test_file_descriptor().unwrap();
    let parent = fd.get_message_by_name(b"my.test.Parent").unwrap();
    let data = b"{\"mystery\": 3}";
    assert_eq!(
        json_decode(&fd, parent.type_id(), data, false, false),
        Err(JsonError::UnknownFieldName(b"mystery".to_vec()))
    );
    let m = json_decode(&fd, parent.type_id(), data, true, false).unwrap();
    assert_eq!(m, parent_msg(&fd));
}

#[test]
fn ignore_unknown_applies_to_nested_objects() {
    let fd = test_file_descriptor().unwrap();
    let parent = fd.get_message_by_name(b"my.test.Parent").unwrap();
    let data = b"{\"child\":{\"mystery\":1}}";
    assert!(json_decode(&fd, parent.type_id(), data, false, false).is_err());
    let m = json_decode(&fd, parent.type_id(), data, true, false).unwrap();
    assert!(m.has_field(2));
}

#[test]
fn unknown_enum_name_is_rejected_but_number_accepted() {
    let fd = test_file_descriptor().unwrap();
    let parent = fd.get_message_by_name(b"my.test.Parent").unwrap();
    assert_eq!(
        json_decode(&fd, parent.type_id(), b"{\"status\":\"STATUS_NOPE\"}", false, false),
        Err(JsonError::UnknownEnumName(b"STATUS_NOPE".to_vec()))
    );
    let m = json_decode(&fd, parent.type_id(), b"{\"status\":42}", false, false).unwrap();
    assert_eq!(m.get_field(&fd, 8), Some(Value::EnumNumber(42)));
}

#[test]
fn unknown_enum_name_accepted_under_lenient_configuration() {
    let fd = test_file_descriptor().unwrap();
    let parent = fd.get_message_by_name(b"my.test.Parent").unwrap();
    let m = json_decode(&fd, parent.type_id(), b"{\"status\":\"STATUS_NOPE\"}", false, true)
        .unwrap();
    // the unknown name is tolerated and the field stays absent
    assert!(!m.has_field(8));
}

#[test]
fn surrogate_pair_escapes_decode_to_utf8() {
    let fd = test_file_descriptor().unwrap();
    let parent = fd.get_message_by_name(b"my.test.Parent").unwrap();
    // U+1F600 written as an escaped surrogate pair
    let m = json_decode(&fd, parent.type_id(), b"{\"name\":\"\\uD83D\\uDE00\"}", false, false)
        .unwrap();
    assert_eq!(
        m.get_field(&fd, 1),
        Some(Value::Str("\u{1F600}".as_bytes().to_vec()))
    );
    // a lone surrogate is rejected
    assert!(json_decode(&fd, parent.type_id(), b"{\"name\":\"\\uD83D\"}", false, false).is_err());
}

#[test]
fn type_mismatch_and_malformed_json_fail() {
    let fd = test_file_descriptor().unwrap();
    let parent = fd.get_message_by_name(b"my.test.Parent").unwrap();
    assert_eq!(
        json_decode(&fd, parent.type_id(), b"{\"name\": 3}", false, false),
        Err(JsonError::Syntax)
    );
    assert!(json_decode(&fd, parent.type_id(), b"{\"name\": \"x\"", false, false).is_err());
    assert!(json_decode(&fd, parent.type_id(), b"", false, false).is_err());
}

#[test]
fn null_member_leaves_field_absent() {
    let fd = test_file_descriptor().unwrap();
    let parent = fd.get_message_by_name(b"my.test.Parent").unwrap();
    let m = json_decode(&fd, parent.type_id(), b"{\"name\": null}", false, false).unwrap();
    assert!(!m.has_field(1));
}

#[test]
fn declared_name_is_accepted_as_key() {
    let fd = test_file_descriptor().unwrap();
    let parent = fd.get_message_by_name(b"my.test.Parent").unwrap();
    let m = json_decode(&fd, parent.type_id(), b"{\"first_choice\": 8}", false, false).unwrap();
    assert_eq!(m.get_field(&fd, 3), Some(Value::Uint32(8)));
}
