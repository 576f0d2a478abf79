use prost_reflect::dynamic::{DynamicMessage, MapEntryValue, MapKeyValue, Value};
use prost_reflect::test_file_descriptor;
use prost_reflect::wire::{decode_message_bytes, encode_message_bytes, read_varint, write_varint};
use prost_reflect::TypeError;

fn parent_msg(fd: &prost_reflect::pool::FileDescriptor) -> DynamicMessage {
    let parent = fd.get_message_by_name(b"my.test.Parent").unwrap();
    DynamicMessage::new(&parent)
}

#[test]
fn varint_round_trip_values() {
    for n in [0u64, 1, 127, 128, 300, 16383, 16384, u64::MAX] {
        let mut out: Vec<u8> = Vec::new();
        write_varint(&mut out, n);
        let (v, end) = read_varint(out.as_slice(), 0).unwrap();
        assert_eq!(v, n);
        assert_eq!(end, out.len());
    }
}

#[test]
fn set_get_and_defaults() {
    let fd = test_file_descriptor().unwrap();
    let mut m = parent_msg(&fd);
    // absent optional string: presence-tracked, reads as not set
    assert_eq!(m.get_field(&fd, 1), None);
    // absent repeated field reads as an empty list
    assert_eq!(m.get_field(&fd, 6), Some(Value::List(vec![])));
    // absent singular scalar reads as its zero default
    let child_desc = fd.get_message_by_name(b"my.test.Child").unwrap();
    let child = DynamicMessage::new(&child_desc);
    assert_eq!(child.get_field(&fd, 1), Some(Value::Int64(0)));
    // set then read back
    m.set_field(&fd, 1, Value::Str(b"hi".to_vec())).unwrap();
    assert!(m.has_field(1));
    assert_eq!(m.get_field(&fd, 1), Some(Value::Str(b"hi".to_vec())));
}

#[test]
fn set_field_type_errors() {
    let fd = test_file_descriptor().unwrap();
    let mut m = parent_msg(&fd);
    assert_eq!(
        m.set_field(&fd, 1, Value::Bool(true)),
        Err(TypeError::KindMismatch(1))
    );
    assert_eq!(
        m.set_field(&fd, 99, Value::Bool(true)),
        Err(TypeError::UnknownField(99))
    );
    assert!(!m.has_field(1));
}

#[test]
fn oneof_members_are_exclusive() {
    let fd = test_file_descriptor().unwrap();
    let mut m = parent_msg(&fd);
    m.set_field(&fd, 3, Value::Uint32(7)).unwrap();
    assert!(m.has_field(3));
    m.set_field(&fd, 5, Value::Str(b"pick me".to_vec())).unwrap();
    // setting member 5 of the same oneof clears member 3
    assert!(!m.has_field(3));
    assert!(m.has_field(5));
    assert_eq!(m.get_field(&fd, 3), None);
    // an unrelated field is untouched
    m.set_field(&fd, 1, Value::Str(b"kept".to_vec())).unwrap();
    m.set_field(&fd, 3, Value::Uint32(9)).unwrap();
    assert_eq!(m.get_field(&fd, 1), Some(Value::Str(b"kept".to_vec())));
    assert!(!m.has_field(5));
}

fn sorted_map(v: &Value) -> Vec<(u64, Value)> {
    match v {
        Value::Mapping(entries) => {
            let mut out: Vec<(u64, Value)> = entries
                .iter()
                .map(|e| match (&e.key, &e.value) {
                    (MapKeyValue::Uint64(k), val) => (*k, val.deep_clone()),
                    other => panic!("unexpected entry {:?}", other),
                })
                .collect();
            out.sort_by_key(|p| p.0);
            out
        }
        other => panic!("not a map: {:?}", other),
    }
}

#[test]
fn wire_round_trip_full_message() {
    let fd = test_file_descriptor().unwrap();
    let mut m = parent_msg(&fd);
    m.set_field(&fd, 1, Value::Str(b"".to_vec())).unwrap();
    let child_desc = fd.get_message_by_name(b"my.test.Child").unwrap();
    let mut child = DynamicMessage::new(&child_desc);
    child.set_field(&fd, 1, Value::Int64(-5)).unwrap();
    m.set_field(&fd, 2, Value::Message(child)).unwrap();
    m.set_field(
        &fd,
        6,
        Value::List(vec![Value::Int32(1), Value::Int32(-2), Value::Int32(3)]),
    )
    .unwrap();
    m.set_field(&fd, 8, Value::EnumNumber(1)).unwrap();
    m.set_field(&fd, 5, Value::Str(b"chosen".to_vec())).unwrap();
    let bytes = encode_message_bytes(&fd, &m);
    let parent = fd.get_message_by_name(b"my.test.Parent").unwrap();
    let back = decode_message_bytes(&fd, parent.type_id(), bytes.as_slice()).unwrap();
    assert_eq!(back, m);
    // and the round trip is stable under a second pass
    let bytes2 = encode_message_bytes(&fd, &back);
    assert_eq!(bytes2, bytes);
}

#[test]
fn wire_round_trip_map_keys() {
    let fd = test_file_descriptor().unwrap();
    let mut m = parent_msg(&fd);
    let entries = vec![
        MapEntryValue { key: MapKeyValue::Uint64(1), value: Value::Str(b"a".to_vec()) },
        MapEntryValue { key: MapKeyValue::Uint64(2), value: Value::Str(b"b".to_vec()) },
        MapEntryValue { key: MapKeyValue::Uint64(3), value: Value::Str(b"c".to_vec()) },
    ];
    m.set_field(&fd, 7, Value::Mapping(entries)).unwrap();
    let bytes = encode_message_bytes(&fd, &m);
    let parent = fd.get_message_by_name(b"my.test.Parent").unwrap();
    let back = decode_message_bytes(&fd, parent.type_id(), bytes.as_slice()).unwrap();
    let got = back.get_field(&fd, 7).unwrap();
    let want = m.get_field(&fd, 7).unwrap();
    assert_eq!(sorted_map(&got), sorted_map(&want));
}

#[test]
fn duplicate_map_key_resolves_last_wins() {
    let fd = test_file_descriptor().unwrap();
    let parent = fd.get_message_by_name(b"my.test.Parent").unwrap();
    // two map entries for key 1: values "x" then "y"
    let mut data: Vec<u8> = Vec::new();
    for val in [b"x".as_slice(), b"y".as_slice()] {
        let mut entry: Vec<u8> = Vec::new();
        entry.extend_from_slice(&[8, 1]); // key field 1, varint, value 1
        entry.extend_from_slice(&[18, 1]); // value field 2, length 1
        entry.extend_from_slice(val);
        data.push(58); // field 7, length-delimited
        data.push(entry.len() as u8);
        data.extend_from_slice(&entry);
    }
    let back = decode_message_bytes(&fd, parent.type_id(), data.as_slice()).unwrap();
    let got = back.get_field(&fd, 7).unwrap();
    assert_eq!(sorted_map(&got), vec![(1u64, Value::Str(b"y".to_vec()))]);
}

#[test]
fn unknown_fields_are_preserved_verbatim() {
    let fd = test_file_descriptor().unwrap();
    let parent = fd.get_message_by_name(b"my.test.Parent").unwrap();
    // field number 99 (undeclared), varint wire type, value 5
    let data: Vec<u8> = vec![0x98, 0x06, 0x05];
    let back = decode_message_bytes(&fd, parent.type_id(), data.as_slice()).unwrap();
    assert_eq!(back.unknown.len(), 1);
    assert_eq!(back.unknown[0].number, 99);
    assert_eq!(back.unknown[0].raw, data);
    let reencoded = encode_message_bytes(&fd, &back);
    assert_eq!(reencoded, data);
}

#[test]
fn packed_and_unpacked_repeated_are_accepted() {
    let fd = test_file_descriptor().unwrap();
    let parent = fd.get_message_by_name(b"my.test.Parent").unwrap();
    // unpacked: two records for field 6; packed: one length-delimited record
    let unpacked: Vec<u8> = vec![48, 4, 48, 5];
    let packed: Vec<u8> = vec![50, 2, 4, 5];
    let a = decode_message_bytes(&fd, parent.type_id(), unpacked.as_slice()).unwrap();
    let b = decode_message_bytes(&fd, parent.type_id(), packed.as_slice()).unwrap();
    let want = Some(Value::List(vec![Value::Int32(4), Value::Int32(5)]));
    assert_eq!(a.get_field(&fd, 6), want);
    assert_eq!(b.get_field(&fd, 6), want);
}

#[test]
fn truncated_input_is_rejected() {
    let fd = test_file_descriptor().unwrap();
    let parent = fd.get_message_by_name(b"my.test.Parent").unwrap();
    // length-delimited field 1 claiming 5 bytes with only 2 present
    let data: Vec<u8> = vec![10, 5, 104, 105];
    assert_eq!(
        decode_message_bytes(&fd, parent.type_id(), data.as_slice()),
        Err(prost_reflect::DecodeError::Truncated)
    );
    // a varint running past the end
    let data2: Vec<u8> = vec![8];
    let child = fd.get_message_by_name(b"my.test.Child").unwrap();
    assert_eq!(
        decode_message_bytes(&fd, child.type_id(), data2.as_slice()),
        Err(prost_reflect::DecodeError::Truncated)
    );
}

#[test]
fn deep_clone_is_independent() {
    let fd = test_file_descriptor().unwrap();
    let mut m = parent_msg(&fd);
    m.set_field(&fd, 1, Value::Str(b"orig".to_vec())).unwrap();
    let copy = m.deep_clone();
    m.set_field(&fd, 1, Value::Str(b"changed".to_vec())).unwrap();
    assert_eq!(copy.get_field(&fd, 1), Some(Value::Str(b"orig".to_vec())));
}
