//! Runtime schema reflection and dynamic messages for the protobuf wire format.
//!
//! A caller supplies file schemas; the descriptor pool resolves every type
//! reference into a stable integer identifier and exposes cheap handle types
//! over the result.  Dynamic message values are built against a message
//! descriptor and converted to and from the binary wire format and a canonical
//! JSON text form.

pub mod builder;
pub mod dynamic;
pub mod json;
pub mod names;
pub mod pool;
pub mod schema;
pub mod service;
pub mod wire;

use vstd::prelude::*;

verus! {

/// Failure while building a descriptor pool: a duplicate full name, a type
/// reference that resolves to nothing, or a malformed shape.
#[derive(Clone, Debug, PartialEq, Eq)]
pub enum DescriptorError {
    /// Two declared entities share one full name; holds the name's bytes.
    DuplicateName(Vec<u8>),
    /// A type reference did not resolve at any enclosing scope; holds the
    /// reference as written.
    TypeNotFound(Vec<u8>),
    /// A declared name holds a byte outside the ASCII identifier range.
    InvalidName(Vec<u8>),
    /// A field's oneof index does not name a declared oneof, or a map entry
    /// message does not have the required two-field shape.
    InvalidShape(Vec<u8>),
}

/// Failure to read or write a dynamic field: the field number is not
/// declared, or the value's tagged-union kind disagrees with the declared
/// kind.  No partial mutation is committed.
#[derive(Clone, Copy, Debug, PartialEq, Eq, Structural)]
pub enum TypeError {
    /// The field number is not declared by the message descriptor.
    UnknownField(u32),
    /// The value's kind disagrees with the field's declared kind.
    KindMismatch(u32),
}

/// Failure to decode wire bytes: truncated input, an invalid tag, a wire
/// type that disagrees with the target field's kind, or an unsupported
/// construct.  Decoding is all-or-nothing.
#[derive(Clone, Copy, Debug, PartialEq, Eq, Structural)]
pub enum DecodeError {
    /// The input ended inside a record or a varint ran past the end.
    Truncated,
    /// A record tag held field number zero or an out-of-range number.
    InvalidTag,
    /// The record's wire type is incompatible with the field's kind; holds
    /// the field number.
    WireTypeMismatch(u32),
    /// A wire construct this codec does not handle; holds the wire type.
    Unsupported(u32),
}

/// Failure to map JSON text to a dynamic message: malformed text, a key
/// that names no declared field, a value of the wrong shape, or an enum
/// name the schema does not declare.  Mapping is all-or-nothing.
#[derive(Clone, Debug, PartialEq, Eq)]
pub enum JsonError {
    /// The input is not well-formed JSON text (or uses a number form this
    /// mapping does not accept).
    Syntax,
    /// A key names no declared field; holds the key's bytes.
    UnknownFieldName(Vec<u8>),
    /// The JSON value's shape disagrees with the field's kind; holds the
    /// field number.
    ValueMismatch(u32),
    /// An enum name string the schema does not declare; holds its bytes.
    UnknownEnumName(Vec<u8>),
}

/// A fresh byte string holding the bytes of an identifier literal.
fn name_bytes(s: &str) -> Vec<u8> {
    vstd::slice::slice_to_vec(s.as_bytes())
}

/// A descriptor pool over a small fixed test schema: package `my.test`
/// with a parent message holding scalar, optional, oneof, repeated, map
/// and nested-message fields, an enum, and one service.  A build failure
/// is surfaced, never recovered silently.
pub fn test_file_descriptor() -> (r: Result<pool::FileDescriptor, DescriptorError>)
    ensures
        r matches Ok(fd) ==> {
            &&& fd.wf()
            &&& fd.types@.len() == 4
            &&& fd.services@.len() == 1
            &&& fd.services@[0].methods@.len() == 1
        },
{
    let mut fields: Vec<schema::FieldSchema> = Vec::new();
    fields.push(schema::FieldSchema {
        name: name_bytes("name"),
        number: 1,
        json_name: None,
        ty: schema::SchemaType::Scalar(schema::ScalarKind::Str),
        cardinality: schema::Cardinality::Optional,
        oneof_index: None,
    });
    fields.push(schema::FieldSchema {
        name: name_bytes("child"),
        number: 2,
        json_name: None,
        ty: schema::SchemaType::Named(name_bytes("Child")),
        cardinality: schema::Cardinality::Singular,
        oneof_index: None,
    });
    fields.push(schema::FieldSchema {
        name: name_bytes("first_choice"),
        number: 3,
        json_name: None,
        ty: schema::SchemaType::Scalar(schema::ScalarKind::Uint32),
        cardinality: schema::Cardinality::Singular,
        oneof_index: Some(0),
    });
    fields.push(schema::FieldSchema {
        name: name_bytes("second_choice"),
        number: 5,
        json_name: None,
        ty: schema::SchemaType::Scalar(schema::ScalarKind::Str),
        cardinality: schema::Cardinality::Singular,
        oneof_index: Some(0),
    });
    fields.push(schema::FieldSchema {
        name: name_bytes("tags"),
        number: 6,
        json_name: None,
        ty: schema::SchemaType::Scalar(schema::ScalarKind::Int32),
        cardinality: schema::Cardinality::Repeated,
        oneof_index: None,
    });
    fields.push(schema::FieldSchema {
        name: name_bytes("attrs"),
        number: 7,
        json_name: None,
        ty: schema::SchemaType::Named(name_bytes("AttrsEntry")),
        cardinality: schema::Cardinality::Repeated,
        oneof_index: None,
    });
    fields.push(schema::FieldSchema {
        name: name_bytes("status"),
        number: 8,
        json_name: None,
        ty: schema::SchemaType::Named(name_bytes(".my.test.Status")),
        cardinality: schema::Cardinality::Singular,
        oneof_index: None,
    });
    let mut oneofs: Vec<schema::OneofSchema> = Vec::new();
    oneofs.push(schema::OneofSchema { name: name_bytes("choice") });

    let mut entry_fields: Vec<schema::FieldSchema> = Vec::new();
    entry_fields.push(schema::FieldSchema {
        name: name_bytes("key"),
        number: 1,
        json_name: None,
        ty: schema::SchemaType::Scalar(schema::ScalarKind::Uint64),
        cardinality: schema::Cardinality::Singular,
        oneof_index: None,
    });
    entry_fields.push(schema::FieldSchema {
        name: name_bytes("value"),
        number: 2,
        json_name: None,
        ty: schema::SchemaType::Scalar(schema::ScalarKind::Str),
        cardinality: schema::Cardinality::Singular,
        oneof_index: None,
    });
    let mut nested_messages: Vec<schema::MessageSchema> = Vec::new();
    nested_messages.push(schema::MessageSchema {
        name: name_bytes("AttrsEntry"),
        fields: entry_fields,
        oneofs: Vec::new(),
        nested_messages: Vec::new(),
        nested_enums: Vec::new(),
        is_map_entry: true,
    });

    let mut child_fields: Vec<schema::FieldSchema> = Vec::new();
    child_fields.push(schema::FieldSchema {
        name: name_bytes("value"),
        number: 1,
        json_name: None,
        ty: schema::SchemaType::Scalar(schema::ScalarKind::Int64),
        cardinality: schema::Cardinality::Singular,
        oneof_index: None,
    });

    let mut messages: Vec<schema::MessageSchema> = Vec::new();
    messages.push(schema::MessageSchema {
        name: name_bytes("Parent"),
        fields,
        oneofs,
        nested_messages,
        nested_enums: Vec::new(),
        is_map_entry: false,
    });
    messages.push(schema::MessageSchema {
        name: name_bytes("Child"),
        fields: child_fields,
        oneofs: Vec::new(),
        nested_messages: Vec::new(),
        nested_enums: Vec::new(),
        is_map_entry: false,
    });

    let mut values: Vec<schema::EnumValueSchema> = Vec::new();
    values.push(schema::EnumValueSchema { name: name_bytes("STATUS_UNKNOWN"), number: 0 });
    values.push(schema::EnumValueSchema { name: name_bytes("STATUS_OK"), number: 1 });
    let mut enums: Vec<schema::EnumSchema> = Vec::new();
    enums.push(schema::EnumSchema { name: name_bytes("Status"), values });

    let mut methods: Vec<schema::MethodSchema> = Vec::new();
    methods.push(schema::MethodSchema {
        name: name_bytes("greet"),
        input_type: name_bytes("Parent"),
        output_type: name_bytes(".my.test.Child"),
        client_streaming: false,
        server_streaming: true,
    });
    let mut services: Vec<schema::ServiceSchema> = Vec::new();
    services.push(schema::ServiceSchema { name: name_bytes("Greeter"), methods });

    let mut files: Vec<schema::FileSchema> = Vec::new();
    files.push(schema::FileSchema {
        name: name_bytes("test.proto"),
        package: name_bytes("my.test"),
        messages,
        enums,
        services,
    });
    match pool::FileDescriptor::new(&files) {
        Ok(fd) => {
            if fd.types.len() == 4 && fd.services.len() == 1 && fd.services[0].methods.len()
                == 1 {
                Ok(fd)
            } else {
                Err(DescriptorError::InvalidShape(Vec::new()))
            }
        },
        Err(e) => Err(e),
    }
}

} // verus!
