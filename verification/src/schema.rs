//! The raw input model: one or more file schemas as plain values.
//!
//! A file schema carries the declaration order of top-level messages, enums
//! and services, each with its local identifier as ASCII bytes.  Type
//! references inside fields and methods are written as dotted names, either
//! relative to the enclosing scope or absolute with a leading dot.  The pool
//! resolves every reference into a stable integer identifier at build time.

use vstd::prelude::*;

verus! {

/// A scalar field kind on the wire.
#[derive(Clone, Copy, PartialEq, Eq, Structural, Debug)]
pub enum ScalarKind {
    Bool,
    Int32,
    Int64,
    Uint32,
    Uint64,
    Str,
    Bytes,
}

/// How many values a field holds, and whether presence is tracked.
#[derive(Clone, Copy, PartialEq, Eq, Structural, Debug)]
pub enum Cardinality {
    /// One value; an absent value reads as the declared default.
    Singular,
    /// One value with explicit presence: absent is distinct from default.
    Optional,
    /// An ordered sequence of values.
    Repeated,
}

/// A field's declared type: a scalar, or a dotted reference to a message or
/// enum type resolved at pool-build time.
#[derive(Debug)]
pub enum SchemaType {
    Scalar(ScalarKind),
    Named(Vec<u8>),
}

/// One declared field of a message.
#[derive(Debug)]
pub struct FieldSchema {
    pub name: Vec<u8>,
    pub number: u32,
    /// Explicit JSON name; when absent the camel-cased declared name is used.
    pub json_name: Option<Vec<u8>>,
    pub ty: SchemaType,
    pub cardinality: Cardinality,
    /// Index into the owning message's oneof list, if the field is a member.
    pub oneof_index: Option<usize>,
}

/// One declared oneof group of a message.
#[derive(Debug)]
pub struct OneofSchema {
    pub name: Vec<u8>,
}

/// One declared message, with its nested types.
#[derive(Debug)]
pub struct MessageSchema {
    pub name: Vec<u8>,
    pub fields: Vec<FieldSchema>,
    pub oneofs: Vec<OneofSchema>,
    pub nested_messages: Vec<MessageSchema>,
    pub nested_enums: Vec<EnumSchema>,
    /// True for the synthetic two-field entry message of a map field.
    pub is_map_entry: bool,
}

/// One declared enum value.
#[derive(Debug)]
pub struct EnumValueSchema {
    pub name: Vec<u8>,
    pub number: i32,
}

/// One declared enum, with its values in declaration order.
#[derive(Debug)]
pub struct EnumSchema {
    pub name: Vec<u8>,
    pub values: Vec<EnumValueSchema>,
}

/// One declared service method.
#[derive(Debug)]
pub struct MethodSchema {
    pub name: Vec<u8>,
    pub input_type: Vec<u8>,
    pub output_type: Vec<u8>,
    pub client_streaming: bool,
    pub server_streaming: bool,
}

/// One declared service.
#[derive(Debug)]
pub struct ServiceSchema {
    pub name: Vec<u8>,
    pub methods: Vec<MethodSchema>,
}

/// One file's declarations.
#[derive(Debug)]
pub struct FileSchema {
    pub name: Vec<u8>,
    /// Dotted package name; may be empty.
    pub package: Vec<u8>,
    pub messages: Vec<MessageSchema>,
    pub enums: Vec<EnumSchema>,
    pub services: Vec<ServiceSchema>,
}

} // verus!
