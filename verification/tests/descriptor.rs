use prost_reflect::names::{make_full_name, parse_name_bytes, parse_namespace_bytes, to_json_name};
use prost_reflect::pool::FileDescriptor;
use prost_reflect::schema::{
    Cardinality, EnumSchema, EnumValueSchema, FieldSchema, FileSchema, MessageSchema, OneofSchema,
    ScalarKind, SchemaType, ServiceSchema,
};
use prost_reflect::service::{MethodDescriptor, ServiceDescriptor};
use prost_reflect::test_file_descriptor;
use prost_reflect::DescriptorError;

fn bytes(s: &str) -> Vec<u8> {
    s.as_bytes().to_vec()
}

#[test]
fn full_name_construction() {
    assert_eq!(make_full_name(b"my.test", b"Parent"), b"my.test.Parent".to_vec());
    assert_eq!(make_full_name(b"", b"Parent"), b"Parent".to_vec());
}

#[test]
fn name_parsing() {
    assert_eq!(parse_name_bytes(b"a.b.Outer.Inner"), b"Inner");
    assert_eq!(parse_namespace_bytes(b"a.b.Outer.Inner"), b"a.b.Outer");
    assert_eq!(parse_name_bytes(b"Loner"), b"Loner");
    assert_eq!(parse_namespace_bytes(b"Loner"), b"");
}

#[test]
fn json_name_derivation() {
    assert_eq!(to_json_name(b"foo_bar_baz"), b"fooBarBaz".to_vec());
    assert_eq!(to_json_name(b"already"), b"already".to_vec());
    assert_eq!(to_json_name(b"trailing_"), b"trailing".to_vec());
}

#[test]
fn service_handle_accessors() {
    let fd = test_file_descriptor().unwrap();
    assert_eq!(fd.service_count(), 1);
    let svc = ServiceDescriptor::new(&fd, 0);
    assert_eq!(svc.index(), 0);
    assert_eq!(svc.full_name(), "my.test.Greeter");
    assert_eq!(svc.name(), "Greeter");
    assert_eq!(svc.package_name(), "my.test");
    let methods = svc.methods();
    assert_eq!(methods.len(), 1);
    let m = &methods[0];
    assert_eq!(m.index(), 0);
    assert_eq!(m.full_name(), "my.test.Greeter.greet");
    assert_eq!(m.name(), "greet");
    assert!(!m.is_client_streaming());
    assert!(m.is_server_streaming());
    assert_eq!(m.input().full_name(), "my.test.Parent");
    assert_eq!(m.output().full_name(), "my.test.Child");
    let m2 = MethodDescriptor::new(svc.borrow(), 0);
    assert_eq!(m2.full_name(), "my.test.Greeter.greet");
    assert_eq!(m2.parent_service().full_name(), "my.test.Greeter");
}

fn nested_file() -> FileSchema {
    // package a.b; message Outer { Inner inner = 1; message Inner { } }
    let inner = MessageSchema {
        name: bytes("Inner"),
        fields: vec![],
        oneofs: vec![],
        nested_messages: vec![],
        nested_enums: vec![],
        is_map_entry: false,
    };
    let outer = MessageSchema {
        name: bytes("Outer"),
        fields: vec![FieldSchema {
            name: bytes("inner"),
            number: 1,
            json_name: None,
            ty: SchemaType::Named(bytes("Inner")),
            cardinality: Cardinality::Singular,
            oneof_index: None,
        }],
        oneofs: vec![],
        nested_messages: vec![inner],
        nested_enums: vec![],
        is_map_entry: false,
    };
    FileSchema {
        name: bytes("nested.proto"),
        package: bytes("a.b"),
        messages: vec![outer],
        enums: vec![],
        services: vec![],
    }
}

#[test]
fn relative_resolution_from_enclosing_scope() {
    let fd = FileDescriptor::new(&vec![nested_file()]).unwrap();
    // a relative reference `Inner` from within `Outer` resolves to the
    // nested message
    let inner_id = fd.resolve_type_name(b"a.b.Outer", b"Inner").unwrap();
    let inner = fd.get_message_by_name(b"a.b.Outer.Inner").unwrap();
    assert_eq!(inner_id, inner.type_id());
    // an absolute reference resolves identically from any scope
    let from_elsewhere = fd.resolve_type_name(b"x.y", b".a.b.Outer.Inner").unwrap();
    let from_outer = fd.resolve_type_name(b"a.b.Outer", b".a.b.Outer.Inner").unwrap();
    assert_eq!(from_elsewhere, inner_id);
    assert_eq!(from_outer, inner_id);
}

#[test]
fn unresolved_reference_is_rejected() {
    let mut file = nested_file();
    file.messages[0].fields[0].ty = SchemaType::Named(bytes("Missing"));
    match FileDescriptor::new(&vec![file]) {
        Err(DescriptorError::TypeNotFound(n)) => assert_eq!(n, bytes("Missing")),
        other => panic!("expected TypeNotFound, got {:?}", other),
    }
}

#[test]
fn duplicate_full_name_is_rejected() {
    let mut file = nested_file();
    let dup = MessageSchema {
        name: bytes("Outer"),
        fields: vec![],
        oneofs: vec![],
        nested_messages: vec![],
        nested_enums: vec![],
        is_map_entry: false,
    };
    file.messages.push(dup);
    match FileDescriptor::new(&vec![file]) {
        Err(DescriptorError::DuplicateName(n)) => assert_eq!(n, bytes("a.b.Outer")),
        other => panic!("expected DuplicateName, got {:?}", other),
    }
}

#[test]
fn invalid_oneof_index_is_rejected() {
    let mut file = nested_file();
    file.messages[0].fields[0] = FieldSchema {
        name: bytes("broken"),
        number: 1,
        json_name: None,
        ty: SchemaType::Scalar(ScalarKind::Bool),
        cardinality: Cardinality::Singular,
        oneof_index: Some(3),
    };
    assert!(matches!(
        FileDescriptor::new(&vec![file]),
        Err(DescriptorError::InvalidShape(_))
    ));
}

#[test]
fn cross_file_resolution() {
    // the dependency declares the type; the dependent file references it
    // absolutely
    let dep = FileSchema {
        name: bytes("dep.proto"),
        package: bytes("dep"),
        messages: vec![MessageSchema {
            name: bytes("Payload"),
            fields: vec![],
            oneofs: vec![],
            nested_messages: vec![],
            nested_enums: vec![],
            is_map_entry: false,
        }],
        enums: vec![],
        services: vec![],
    };
    let user = FileSchema {
        name: bytes("user.proto"),
        package: bytes("app"),
        messages: vec![],
        enums: vec![EnumSchema {
            name: bytes("Mode"),
            values: vec![EnumValueSchema { name: bytes("MODE_A"), number: 0 }],
        }],
        services: vec![ServiceSchema {
            name: bytes("Svc"),
            methods: vec![prost_reflect::schema::MethodSchema {
                name: bytes("run"),
                input_type: bytes(".dep.Payload"),
                output_type: bytes(".dep.Payload"),
                client_streaming: false,
                server_streaming: false,
            }],
        }],
    };
    let fd = FileDescriptor::new(&vec![dep, user]).unwrap();
    let svc = ServiceDescriptor::new(&fd, 0);
    assert_eq!(svc.full_name(), "app.Svc");
    let ms = svc.methods();
    assert_eq!(ms[0].input().full_name(), "dep.Payload");
}

#[test]
fn non_message_method_type_is_rejected() {
    // a method whose input resolves to an enum cannot be built
    let file = FileSchema {
        name: bytes("svc.proto"),
        package: bytes("p"),
        messages: vec![],
        enums: vec![EnumSchema {
            name: bytes("Mode"),
            values: vec![EnumValueSchema { name: bytes("MODE_A"), number: 0 }],
        }],
        services: vec![ServiceSchema {
            name: bytes("Svc"),
            methods: vec![prost_reflect::schema::MethodSchema {
                name: bytes("run"),
                input_type: bytes(".p.Mode"),
                output_type: bytes(".p.Mode"),
                client_streaming: false,
                server_streaming: false,
            }],
        }],
    };
    assert!(matches!(
        FileDescriptor::new(&vec![file]),
        Err(DescriptorError::InvalidShape(_))
    ));
}

#[test]
fn oneof_schema_names_are_kept() {
    let fd = test_file_descriptor().unwrap();
    let parent = fd.get_message_by_name(b"my.test.Parent").unwrap();
    assert_eq!(parent.full_name(), "my.test.Parent");
    assert_eq!(parent.name(), "Parent");
    assert!(!parent.is_map_entry());
    assert_eq!(parent.field_count(), 7);
    let entry = fd.get_message_by_name(b"my.test.Parent.AttrsEntry").unwrap();
    assert!(entry.is_map_entry());
    assert!(matches!(OneofSchema { name: bytes("choice") }, OneofSchema { .. }));
}
