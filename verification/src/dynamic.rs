//! The dynamic value model: a runtime message instance whose field storage
//! is driven by a message descriptor.
//!
//! A message holds one entry per present field number (absence is distinct
//! from presence-at-default) and a side table of unrecognized field records
//! kept verbatim for re-encoding.  Values are a small closed tagged union;
//! setting a field checks the value's shape against the field's declared
//! kind, and setting a oneof member clears its siblings.
//!
//! Contracts speak of values through their mathematical views
//! ([`ValueView`], [`MessageView`]), under which a byte string is a byte
//! sequence and container order is the stored order.

use vstd::prelude::*;

use crate::pool::{FieldDef, FileDescriptor, Kind, MessageDef, TypeDef};
use crate::schema::Cardinality;

verus! {

/// A key of a map field: the scalar kinds protobuf allows as map keys.
#[derive(Debug, PartialEq, Eq, Clone)]
pub enum MapKeyValue {
    Bool(bool),
    Int32(i32),
    Int64(i64),
    Uint32(u32),
    Uint64(u64),
    Str(Vec<u8>),
}

/// One key/value pair of a map field.
#[derive(Debug, PartialEq)]
pub struct MapEntryValue {
    pub key: MapKeyValue,
    pub value: Value,
}

/// A field value: a scalar, an enum number, an embedded message, an ordered
/// sequence (repeated field) or a keyed mapping (map field).
#[derive(Debug, PartialEq)]
pub enum Value {
    Bool(bool),
    Int32(i32),
    Int64(i64),
    Uint32(u32),
    Uint64(u64),
    Str(Vec<u8>),
    Bytes(Vec<u8>),
    EnumNumber(i32),
    Message(DynamicMessage),
    List(Vec<Value>),
    Mapping(Vec<MapEntryValue>),
}

/// One present field of a dynamic message.
#[derive(Debug, PartialEq)]
pub struct FieldValueEntry {
    pub number: u32,
    pub value: Value,
}

/// One unrecognized wire record, kept verbatim: its field number, wire type
/// and the complete record bytes (tag included) as captured at decode time.
#[derive(Debug, PartialEq)]
pub struct UnknownField {
    pub number: u32,
    pub wire_type: u8,
    pub raw: Vec<u8>,
}

/// A runtime message instance bound to the message type `ty` of a pool.
#[derive(Debug, PartialEq)]
pub struct DynamicMessage {
    pub ty: usize,
    pub fields: Vec<FieldValueEntry>,
    pub unknown: Vec<UnknownField>,
}

/// The mathematical view of a map key.
pub enum MapKeyView {
    Bool(bool),
    Int32(i32),
    Int64(i64),
    Uint32(u32),
    Uint64(u64),
    Str(Seq<u8>),
}

/// The mathematical view of a field value.
pub enum ValueView {
    Bool(bool),
    Int32(i32),
    Int64(i64),
    Uint32(u32),
    Uint64(u64),
    Str(Seq<u8>),
    Bytes(Seq<u8>),
    EnumNumber(i32),
    Message(MessageView),
    List(Seq<ValueView>),
    Mapping(Seq<(MapKeyView, ValueView)>),
}

/// The mathematical view of a dynamic message: its bound type, its present
/// entries in stored order, and its unknown records.
pub struct MessageView {
    pub ty: int,
    pub fields: Seq<(u32, ValueView)>,
    pub unknown: Seq<(u32, u8, Seq<u8>)>,
}

/// The view of a map key.
pub open spec fn key_view(k: MapKeyValue) -> MapKeyView {
    match k {
        MapKeyValue::Bool(b) => MapKeyView::Bool(b),
        MapKeyValue::Int32(v) => MapKeyView::Int32(v),
        MapKeyValue::Int64(v) => MapKeyView::Int64(v),
        MapKeyValue::Uint32(v) => MapKeyView::Uint32(v),
        MapKeyValue::Uint64(v) => MapKeyView::Uint64(v),
        MapKeyValue::Str(s) => MapKeyView::Str(s@),
    }
}

/// The view of a field value.
pub open spec fn value_view(v: Value) -> ValueView
    decreases v, 1int,
{
    match v {
        Value::Bool(b) => ValueView::Bool(b),
        Value::Int32(x) => ValueView::Int32(x),
        Value::Int64(x) => ValueView::Int64(x),
        Value::Uint32(x) => ValueView::Uint32(x),
        Value::Uint64(x) => ValueView::Uint64(x),
        Value::Str(s) => ValueView::Str(s@),
        Value::Bytes(s) => ValueView::Bytes(s@),
        Value::EnumNumber(x) => ValueView::EnumNumber(x),
        Value::Message(m) => ValueView::Message(msg_view(m)),
        Value::List(items) => ValueView::List(value_views(items@)),
        Value::Mapping(entries) => ValueView::Mapping(map_entry_views(entries@)),
    }
}

/// The views of a sequence of values.
pub open spec fn value_views(items: Seq<Value>) -> Seq<ValueView>
    decreases items, 0int,
{
    if items.len() == 0 {
        Seq::empty()
    } else {
        seq![value_view(items[0])] + value_views(items.drop_first())
    }
}

/// The views of a sequence of map entries.
pub open spec fn map_entry_views(entries: Seq<MapEntryValue>) -> Seq<(MapKeyView, ValueView)>
    decreases entries, 0int,
{
    if entries.len() == 0 {
        Seq::empty()
    } else {
        seq![(key_view(entries[0].key), value_view(entries[0].value))] + map_entry_views(
            entries.drop_first(),
        )
    }
}

/// The views of a sequence of present entries.
pub open spec fn field_entry_views(entries: Seq<FieldValueEntry>) -> Seq<(u32, ValueView)>
    decreases entries, 0int,
{
    if entries.len() == 0 {
        Seq::empty()
    } else {
        seq![(entries[0].number, value_view(entries[0].value))] + field_entry_views(
            entries.drop_first(),
        )
    }
}

/// The view of a dynamic message.
pub open spec fn msg_view(m: DynamicMessage) -> MessageView
    decreases m, 2int,
{
    MessageView {
        ty: m.ty as int,
        fields: field_entry_views(m.fields@),
        unknown: m.unknown@.map_values(|u: UnknownField| (u.number, u.wire_type, u.raw@)),
    }
}

pub proof fn lemma_value_views_index(items: Seq<Value>, i: int)
    requires
        0 <= i < items.len(),
    ensures
        value_views(items).len() == items.len(),
        value_views(items)[i] == value_view(items[i]),
    decreases items.len(),
{
    lemma_value_views_len(items);
    if i > 0 {
        lemma_value_views_index(items.drop_first(), i - 1);
    }
}

pub proof fn lemma_value_views_len(items: Seq<Value>)
    ensures
        value_views(items).len() == items.len(),
    decreases items.len(),
{
    if items.len() > 0 {
        lemma_value_views_len(items.drop_first());
    }
}

pub proof fn lemma_map_entry_views_len(entries: Seq<MapEntryValue>)
    ensures
        map_entry_views(entries).len() == entries.len(),
    decreases entries.len(),
{
    if entries.len() > 0 {
        lemma_map_entry_views_len(entries.drop_first());
    }
}

pub proof fn lemma_map_entry_views_index(entries: Seq<MapEntryValue>, i: int)
    requires
        0 <= i < entries.len(),
    ensures
        map_entry_views(entries).len() == entries.len(),
        map_entry_views(entries)[i] == (key_view(entries[i].key), value_view(entries[i].value)),
    decreases entries.len(),
{
    lemma_map_entry_views_len(entries);
    if i > 0 {
        lemma_map_entry_views_index(entries.drop_first(), i - 1);
    }
}

pub proof fn lemma_field_entry_views_len(entries: Seq<FieldValueEntry>)
    ensures
        field_entry_views(entries).len() == entries.len(),
    decreases entries.len(),
{
    if entries.len() > 0 {
        lemma_field_entry_views_len(entries.drop_first());
    }
}

pub proof fn lemma_field_entry_views_index(entries: Seq<FieldValueEntry>, i: int)
    requires
        0 <= i < entries.len(),
    ensures
        field_entry_views(entries).len() == entries.len(),
        field_entry_views(entries)[i] == (
            entries[i].number,
            value_view(entries[i].value),
        ),
    decreases entries.len(),
{
    lemma_field_entry_views_len(entries);
    if i > 0 {
        lemma_field_entry_views_index(entries.drop_first(), i - 1);
    }
}

/// Two sequences of values with pointwise equal views have equal views.
pub proof fn lemma_value_views_pointwise(a: Seq<Value>, b: Seq<Value>)
    requires
        a.len() == b.len(),
        forall|i: int| 0 <= i < a.len() ==> value_view(a[i]) == value_view(b[i]),
    ensures
        value_views(a) == value_views(b),
{
    lemma_value_views_len(a);
    lemma_value_views_len(b);
    assert forall|i: int| 0 <= i < value_views(a).len() implies value_views(a)[i]
        == value_views(b)[i] by {
        lemma_value_views_index(a, i);
        lemma_value_views_index(b, i);
    }
    assert(value_views(a) =~= value_views(b));
}

/// Index of the first declared field with the given number.
pub open spec fn spec_find_field(fields: Seq<FieldDef>, number: u32) -> Option<int>
    decreases fields.len(),
{
    if fields.len() == 0 {
        None
    } else if fields[0].number == number {
        Some(0int)
    } else {
        match spec_find_field(fields.drop_first(), number) {
            Some(i) => Some(i + 1),
            None => None,
        }
    }
}

/// Index of the first present entry with the given number.
pub open spec fn spec_find_entry(entries: Seq<FieldValueEntry>, number: u32) -> Option<int>
    decreases entries.len(),
{
    if entries.len() == 0 {
        None
    } else if entries[0].number == number {
        Some(0int)
    } else {
        match spec_find_entry(entries.drop_first(), number) {
            Some(i) => Some(i + 1),
            None => None,
        }
    }
}

/// The view of the stored value for a field number, if one is present.
pub open spec fn get_view(m: DynamicMessage, number: u32) -> Option<ValueView> {
    match spec_find_entry(m.fields@, number) {
        Some(i) => Some(value_view(m.fields@[i].value)),
        None => None,
    }
}

/// The message definition a dynamic message is bound to.
pub open spec fn def_of(types: Seq<TypeDef>, ty: int) -> MessageDef {
    types[ty]->Message_0
}

/// True when the field is presented to callers as a map: its type is the
/// synthetic two-field entry message and it is repeated.
pub open spec fn is_map_field(types: Seq<TypeDef>, f: FieldDef) -> bool {
    match f.kind {
        Kind::Message(id) => f.cardinality == Cardinality::Repeated && id < types.len()
            && types[id as int] is Message && def_of(types, id as int).is_map_entry,
        _ => false,
    }
}

/// A map key value of the right scalar kind.
pub open spec fn key_matches(k: Kind, key: MapKeyValue) -> bool {
    match k {
        Kind::Bool => key is Bool,
        Kind::Int32 => key is Int32,
        Kind::Int64 => key is Int64,
        Kind::Uint32 => key is Uint32,
        Kind::Uint64 => key is Uint64,
        Kind::Str => key is Str,
        _ => false,
    }
}

/// One value of the given kind (ignoring cardinality): the tagged-union
/// shape agrees, and an embedded message is itself valid and bound to the
/// referenced type.
pub open spec fn single_ok(types: Seq<TypeDef>, k: Kind, v: Value) -> bool
    decreases v, 0int,
{
    match k {
        Kind::Bool => v is Bool,
        Kind::Int32 => v is Int32,
        Kind::Int64 => v is Int64,
        Kind::Uint32 => v is Uint32,
        Kind::Uint64 => v is Uint64,
        Kind::Str => v is Str,
        Kind::Bytes => v is Bytes,
        Kind::Enum(_) => v is EnumNumber,
        Kind::Message(id) => match v {
            Value::Message(m) => m.ty == id && message_ok(types, m),
            _ => false,
        },
    }
}

/// A complete value for the given field, cardinality included.
pub open spec fn value_ok(types: Seq<TypeDef>, f: FieldDef, v: Value) -> bool
    decreases v, 1int,
{
    if is_map_field(types, f) {
        match v {
            Value::Mapping(entries) => {
                let entry_def = def_of(types, f.kind->Message_0 as int);
                &&& forall|i: int|
                    0 <= i < entries@.len() ==> key_matches(
                        entry_def.fields@[0].kind,
                        (#[trigger] entries@[i]).key,
                    )
                &&& forall|i: int|
                    0 <= i < entries@.len() ==> single_ok(
                        types,
                        entry_def.fields@[1].kind,
                        (#[trigger] entries@[i]).value,
                    )
                &&& forall|i: int, j: int|
                    0 <= i < j < entries@.len() ==> key_view(entries@[i].key) != key_view(
                        entries@[j].key,
                    )
            },
            _ => false,
        }
    } else if f.cardinality == Cardinality::Repeated {
        match v {
            Value::List(items) => forall|i: int|
                0 <= i < items@.len() ==> single_ok(types, f.kind, #[trigger] items@[i]),
            _ => false,
        }
    } else {
        single_ok(types, f.kind, v)
    }
}

/// A valid dynamic message: bound to a message type of the pool, each
/// present entry belongs to a declared field and holds a value of its kind,
/// and no field number is present twice.
pub open spec fn message_ok(types: Seq<TypeDef>, m: DynamicMessage) -> bool
    decreases m, 3int,
{
    &&& m.ty < types.len()
    &&& types[m.ty as int] is Message
    &&& forall|i: int|
        0 <= i < m.fields@.len() ==> entry_ok(
            types,
            def_of(types, m.ty as int),
            #[trigger] m.fields@[i],
        )
    &&& forall|i: int, j: int|
        0 <= i < j < m.fields@.len() ==> m.fields@[i].number != m.fields@[j].number
    &&& forall|i: int, j: int|
        0 <= i < j < m.fields@.len() ==> !spec_same_oneof(
            def_of(types, m.ty as int),
            m.fields@[i].number,
            m.fields@[j].number,
        )
}

/// One present entry is declared and holds a value of the declared kind.
pub open spec fn entry_ok(types: Seq<TypeDef>, def: MessageDef, e: FieldValueEntry) -> bool
    decreases e, 2int,
{
    match spec_find_field(def.fields@, e.number) {
        Some(fi) => value_ok(types, def.fields@[fi], e.value),
        None => false,
    }
}

pub proof fn lemma_find_field_props(fields: Seq<FieldDef>, number: u32)
    ensures
        spec_find_field(fields, number) matches Some(i) ==> 0 <= i < fields.len()
            && fields[i].number == number,
        spec_find_field(fields, number) is None ==> forall|i: int|
            0 <= i < fields.len() ==> fields[i].number != number,
    decreases fields.len(),
{
    if fields.len() > 0 {
        lemma_find_field_props(fields.drop_first(), number);
        if spec_find_field(fields, number) is None {
            assert forall|i: int| 0 <= i < fields.len() implies fields[i].number != number by {
                if i > 0 {
                    assert(fields.drop_first()[i - 1] == fields[i]);
                }
            }
        }
    }
}

pub proof fn lemma_find_entry_props(entries: Seq<FieldValueEntry>, number: u32)
    ensures
        spec_find_entry(entries, number) matches Some(i) ==> 0 <= i < entries.len()
            && entries[i].number == number,
        spec_find_entry(entries, number) is None ==> forall|i: int|
            0 <= i < entries.len() ==> entries[i].number != number,
    decreases entries.len(),
{
    if entries.len() > 0 {
        lemma_find_entry_props(entries.drop_first(), number);
        if spec_find_entry(entries, number) is None {
            assert forall|i: int| 0 <= i < entries.len() implies entries[i].number != number by {
                if i > 0 {
                    assert(entries.drop_first()[i - 1] == entries[i]);
                }
            }
        }
    }
}

/// Appending an entry leaves earlier lookups unchanged and makes the new
/// entry's number found at the end when it was absent before.
pub proof fn lemma_find_entry_push(entries: Seq<FieldValueEntry>, e: FieldValueEntry, number: u32)
    ensures
        spec_find_entry(entries.push(e), number) == (match spec_find_entry(entries, number) {
            Some(i) => Some(i),
            None => if e.number == number {
                Some(entries.len() as int)
            } else {
                None
            },
        }),
    decreases entries.len(),
{
    if entries.len() == 0 {
        assert(entries.push(e)[0] == e);
        assert(entries.push(e).drop_first() =~= Seq::<FieldValueEntry>::empty());
        assert(spec_find_entry(Seq::<FieldValueEntry>::empty(), number) is None);
        assert(spec_find_entry(entries, number) is None);
        if e.number == number {
            assert(spec_find_entry(entries.push(e), number) == Some(0int));
        } else {
            assert(spec_find_entry(entries.push(e), number) is None);
        }
    } else {
        assert(entries.push(e)[0] == entries[0]);
        assert(entries.push(e).drop_first() =~= entries.drop_first().push(e));
        lemma_find_entry_push(entries.drop_first(), e, number);
        if entries[0].number != number {
            assert(spec_find_entry(entries.push(e), number) == (
            match spec_find_entry(entries.drop_first().push(e), number) {
                Some(i) => Some(i + 1),
                None => None,
            }));
        }
    }
}

pub(crate) fn find_field_def_pub<'a>(def: &'a MessageDef, number: u32) -> (r: Option<&'a FieldDef>)
    ensures
        match r {
            Some(f) => spec_find_field(def.fields@, number) matches Some(i) && *f
                == def.fields@[i],
            None => spec_find_field(def.fields@, number) is None,
        },
{
    let n: usize = def.fields.len();
    let mut i: usize = 0;
    while i < n
        invariant
            n == def.fields@.len(),
            0 <= i <= n,
            forall|j: int| 0 <= j < i ==> def.fields@[j].number != number,
        decreases n - i,
    {
        if def.fields[i].number == number {
            proof {
                lemma_find_field_at(def.fields@, number, i as int);
            }
            return Some(&def.fields[i]);
        }
        i += 1;
    }
    proof {
        lemma_find_field_none(def.fields@, number);
    }
    None
}

proof fn lemma_find_field_at(fields: Seq<FieldDef>, number: u32, i: int)
    requires
        0 <= i < fields.len(),
        fields[i].number == number,
        forall|j: int| 0 <= j < i ==> fields[j].number != number,
    ensures
        spec_find_field(fields, number) == Some(i),
    decreases fields.len(),
{
    if i > 0 {
        assert forall|j: int| 0 <= j < i - 1 implies fields.drop_first()[j].number != number by {
            assert(fields.drop_first()[j] == fields[j + 1]);
        }
        assert(fields.drop_first()[i - 1] == fields[i]);
        lemma_find_field_at(fields.drop_first(), number, i - 1);
    }
}

proof fn lemma_find_field_none(fields: Seq<FieldDef>, number: u32)
    requires
        forall|i: int| 0 <= i < fields.len() ==> fields[i].number != number,
    ensures
        spec_find_field(fields, number) is None,
    decreases fields.len(),
{
    if fields.len() > 0 {
        assert forall|j: int|
            0 <= j < fields.len() - 1 implies fields.drop_first()[j].number != number by {
            assert(fields.drop_first()[j] == fields[j + 1]);
        }
        lemma_find_field_none(fields.drop_first(), number);
    }
}

pub proof fn lemma_find_entry_at(entries: Seq<FieldValueEntry>, number: u32, i: int)
    requires
        0 <= i < entries.len(),
        entries[i].number == number,
        forall|j: int| 0 <= j < i ==> entries[j].number != number,
    ensures
        spec_find_entry(entries, number) == Some(i),
    decreases entries.len(),
{
    if i > 0 {
        assert forall|j: int|
            0 <= j < i - 1 implies entries.drop_first()[j].number != number by {
            assert(entries.drop_first()[j] == entries[j + 1]);
        }
        assert(entries.drop_first()[i - 1] == entries[i]);
        lemma_find_entry_at(entries.drop_first(), number, i - 1);
    }
}

pub proof fn lemma_find_entry_none(entries: Seq<FieldValueEntry>, number: u32)
    requires
        forall|i: int| 0 <= i < entries.len() ==> entries[i].number != number,
    ensures
        spec_find_entry(entries, number) is None,
    decreases entries.len(),
{
    if entries.len() > 0 {
        assert forall|j: int|
            0 <= j < entries.len() - 1 implies entries.drop_first()[j].number != number by {
            assert(entries.drop_first()[j] == entries[j + 1]);
        }
        lemma_find_entry_none(entries.drop_first(), number);
    }
}

fn clone_byte_vec(v: &Vec<u8>) -> (r: Vec<u8>)
    ensures
        r@ == v@,
{
    crate::names::copy_bytes(v)
}

fn clone_key(k: &MapKeyValue) -> (r: MapKeyValue)
    ensures
        key_view(r) == key_view(*k),
{
    match k {
        MapKeyValue::Bool(b) => MapKeyValue::Bool(*b),
        MapKeyValue::Int32(v) => MapKeyValue::Int32(*v),
        MapKeyValue::Int64(v) => MapKeyValue::Int64(*v),
        MapKeyValue::Uint32(v) => MapKeyValue::Uint32(*v),
        MapKeyValue::Uint64(v) => MapKeyValue::Uint64(*v),
        MapKeyValue::Str(s) => MapKeyValue::Str(clone_byte_vec(s)),
    }
}

impl Value {
    /// A deep copy: embedded messages, lists, maps and byte strings are all
    /// copied; the view is preserved exactly.
    pub fn deep_clone(&self) -> (r: Value)
        ensures
            value_view(r) == value_view(*self),
        decreases *self, 3int,
    {
        match self {
            Value::Bool(b) => Value::Bool(*b),
            Value::Int32(v) => Value::Int32(*v),
            Value::Int64(v) => Value::Int64(*v),
            Value::Uint32(v) => Value::Uint32(*v),
            Value::Uint64(v) => Value::Uint64(*v),
            Value::Str(s) => Value::Str(clone_byte_vec(s)),
            Value::Bytes(s) => Value::Bytes(clone_byte_vec(s)),
            Value::EnumNumber(v) => Value::EnumNumber(*v),
            Value::Message(m) => Value::Message(m.deep_clone()),
            Value::List(items) => {
                let n: usize = items.len();
                let mut out: Vec<Value> = Vec::new();
                let mut i: usize = 0;
                while i < n
                    invariant
                        n == items@.len(),
                        0 <= i <= n,
                        out@.len() == i,
                        *self == Value::List(*items),
                        forall|j: int|
                            0 <= j < i ==> value_view(#[trigger] out@[j]) == value_view(
                                items@[j],
                            ),
                    decreases n - i,
                {
                    proof {
                        assert(decreases_to!(*self => self->List_0));
                        assert(self->List_0 == *items);
                        assert(decreases_to!(*items => items@[i as int]));
                    }
                    out.push(items[i].deep_clone());
                    i += 1;
                }
                proof {
                    lemma_value_views_pointwise(out@, items@);
                }
                Value::List(out)
            },
            Value::Mapping(entries) => {
                let n: usize = entries.len();
                let mut out: Vec<MapEntryValue> = Vec::new();
                let mut i: usize = 0;
                while i < n
                    invariant
                        n == entries@.len(),
                        0 <= i <= n,
                        out@.len() == i,
                        *self == Value::Mapping(*entries),
                        forall|j: int|
                            0 <= j < i ==> key_view((#[trigger] out@[j]).key) == key_view(
                                entries@[j].key,
                            ) && value_view(out@[j].value) == value_view(entries@[j].value),
                    decreases n - i,
                {
                    proof {
                        assert(decreases_to!(*self => self->Mapping_0));
                        assert(self->Mapping_0 == *entries);
                        assert(decreases_to!(*entries => entries@[i as int]));
                        assert(decreases_to!(entries@[i as int] => entries@[i as int].value));
                    }
                    let e = &entries[i];
                    out.push(MapEntryValue { key: clone_key(&e.key), value: e.value.deep_clone() });
                    i += 1;
                }
                proof {
                    assert forall|i: int|
                        0 <= i < out@.len() implies map_entry_views(out@)[i] == map_entry_views(
                        entries@,
                    )[i] by {
                        lemma_map_entry_views_index(out@, i);
                        lemma_map_entry_views_index(entries@, i);
                    }
                    lemma_map_entry_views_len(out@);
                    lemma_map_entry_views_len(entries@);
                    assert(map_entry_views(out@) =~= map_entry_views(entries@));
                }
                Value::Mapping(out)
            },
        }
    }
}

impl DynamicMessage {
    /// A deep copy, embedded sub-messages and unknown-field bytes included;
    /// the view is preserved exactly.
    pub fn deep_clone(&self) -> (r: DynamicMessage)
        ensures
            msg_view(r) == msg_view(*self),
        decreases *self, 4int,
    {
        let nf: usize = self.fields.len();
        let mut fields: Vec<FieldValueEntry> = Vec::new();
        let mut i: usize = 0;
        while i < nf
            invariant
                nf == self.fields@.len(),
                0 <= i <= nf,
                fields@.len() == i,
                forall|j: int|
                    0 <= j < i ==> (#[trigger] fields@[j]).number == self.fields@[j].number
                        && value_view(fields@[j].value) == value_view(self.fields@[j].value),
            decreases nf - i,
        {
            proof {
                assert(decreases_to!(*self => self.fields));
                assert(decreases_to!(self.fields => self.fields@[i as int]));
                assert(decreases_to!(self.fields@[i as int] => self.fields@[i as int].value));
            }
            let e = &self.fields[i];
            fields.push(FieldValueEntry { number: e.number, value: e.value.deep_clone() });
            i += 1;
        }
        let nu: usize = self.unknown.len();
        let mut unknown: Vec<UnknownField> = Vec::new();
        let mut i: usize = 0;
        while i < nu
            invariant
                nu == self.unknown@.len(),
                0 <= i <= nu,
                unknown@.len() == i,
                forall|j: int|
                    0 <= j < i ==> (#[trigger] unknown@[j]).number == self.unknown@[j].number
                        && unknown@[j].wire_type == self.unknown@[j].wire_type
                        && unknown@[j].raw@ == self.unknown@[j].raw@,
            decreases nu - i,
        {
            let u = &self.unknown[i];
            unknown.push(UnknownField {
                number: u.number,
                wire_type: u.wire_type,
                raw: clone_byte_vec(&u.raw),
            });
            i += 1;
        }
        let r = DynamicMessage { ty: self.ty, fields, unknown };
        proof {
            assert forall|i: int|
                0 <= i < fields@.len() implies field_entry_views(fields@)[i] == field_entry_views(
                self.fields@,
            )[i] by {
                lemma_field_entry_views_index(fields@, i);
                lemma_field_entry_views_index(self.fields@, i);
            }
            lemma_field_entry_views_len(fields@);
            lemma_field_entry_views_len(self.fields@);
            assert(field_entry_views(fields@) =~= field_entry_views(self.fields@));
            assert(unknown@.map_values(|u: UnknownField| (u.number, u.wire_type, u.raw@))
                =~= self.unknown@.map_values(|u: UnknownField| (u.number, u.wire_type, u.raw@)));
        }
        r
    }
}

/// Checks a value against a field's declared kind and cardinality, to the
/// full depth of embedded messages.
pub fn check_value(pool: &FileDescriptor, f: &FieldDef, v: &Value) -> (r: bool)
    requires
        pool.wf(),
        crate::pool::kind_wf(f.kind, pool.types@),
    ensures
        r == value_ok(pool.types@, *f, *v),
    decreases *v, 1int,
{
    let map_field: bool = match f.kind {
        Kind::Message(id) => {
            if f.cardinality == Cardinality::Repeated {
                match &pool.types[id] {
                    TypeDef::Message(md) => md.is_map_entry,
                    TypeDef::Enum(_) => false,
                }
            } else {
                false
            }
        },
        _ => false,
    };
    if map_field {
        match v {
            Value::Mapping(entries) => {
                let id: usize = match f.kind {
                    Kind::Message(i) => i,
                    _ => 0,
                };
                let entry_def: &MessageDef = match &pool.types[id] {
                    TypeDef::Message(md) => md,
                    TypeDef::Enum(_) => vstd::pervasive::unreached(),
                };
                proof {
                    assert(crate::pool::message_wf(*entry_def, pool.types@));
                }
                let n: usize = entries.len();
                let mut i: usize = 0;
                while i < n
                    invariant
                        pool.wf(),
                        n == entries@.len(),
                        0 <= i <= n,
                        *entry_def == def_of(pool.types@, id as int),
                        id < pool.types@.len() && pool.types@[id as int] is Message,
                        crate::pool::message_wf(*entry_def, pool.types@),
                        entry_def.fields@.len() == 2,
                        crate::pool::kind_wf(entry_def.fields@[1].kind, pool.types@),
                        f.kind == Kind::Message(id),
                        is_map_field(pool.types@, *f),
                        *v == Value::Mapping(*entries),
                        forall|j: int|
                            0 <= j < i ==> key_matches(
                                entry_def.fields@[0].kind,
                                (#[trigger] entries@[j]).key,
                            ),
                        forall|j: int|
                            0 <= j < i ==> single_ok(
                                pool.types@,
                                entry_def.fields@[1].kind,
                                (#[trigger] entries@[j]).value,
                            ),
                        forall|a: int, b: int|
                            0 <= a < b < i ==> key_view(entries@[a].key) != key_view(
                                entries@[b].key,
                            ),
                    decreases n - i,
                {
                    let e = &entries[i];
                    if !check_key(&entry_def.fields[0].kind, &e.key) {
                        return false;
                    }
                    proof {
                        assert(decreases_to!(*v => v->Mapping_0));
                        assert(v->Mapping_0 == *entries);
                        assert(decreases_to!(*entries => entries@[i as int]));
                        assert(decreases_to!(entries@[i as int] => entries@[i as int].value));
                    }
                    if !check_single(pool, &entry_def.fields[1].kind, &e.value) {
                        return false;
                    }
                    let mut j: usize = 0;
                    while j < i
                        invariant
                            n == entries@.len(),
                            0 <= j <= i < n,
                            is_map_field(pool.types@, *f),
                            *v == Value::Mapping(*entries),
                            forall|a: int|
                                0 <= a < j ==> key_view(entries@[a].key) != key_view(
                                    entries@[i as int].key,
                                ),
                        decreases i - j,
                    {
                        if keys_equal(&entries[j].key, &entries[i].key) {
                            return false;
                        }
                        j += 1;
                    }
                    i += 1;
                }
                true
            },
            _ => false,
        }
    } else if f.cardinality == Cardinality::Repeated {
        match v {
            Value::List(items) => {
                let n: usize = items.len();
                let mut i: usize = 0;
                while i < n
                    invariant
                        pool.wf(),
                        crate::pool::kind_wf(f.kind, pool.types@),
                        n == items@.len(),
                        0 <= i <= n,
                        *v == Value::List(*items),
                        forall|j: int|
                            0 <= j < i ==> single_ok(pool.types@, f.kind, #[trigger] items@[j]),
                    decreases n - i,
                {
                    proof {
                        assert(decreases_to!(*v => v->List_0));
                        assert(v->List_0 == *items);
                        assert(decreases_to!(*items => items@[i as int]));
                    }
                    if !check_single(pool, &f.kind, &items[i]) {
                        return false;
                    }
                    i += 1;
                }
                true
            },
            _ => false,
        }
    } else {
        check_single(pool, &f.kind, v)
    }
}

/// Checks one value against a kind, recursing into embedded messages.
pub fn check_single(pool: &FileDescriptor, k: &Kind, v: &Value) -> (r: bool)
    requires
        pool.wf(),
        crate::pool::kind_wf(*k, pool.types@),
    ensures
        r == single_ok(pool.types@, *k, *v),
    decreases *v, 0int,
{
    match k {
        Kind::Bool => matches!(v, Value::Bool(_)),
        Kind::Int32 => matches!(v, Value::Int32(_)),
        Kind::Int64 => matches!(v, Value::Int64(_)),
        Kind::Uint32 => matches!(v, Value::Uint32(_)),
        Kind::Uint64 => matches!(v, Value::Uint64(_)),
        Kind::Str => matches!(v, Value::Str(_)),
        Kind::Bytes => matches!(v, Value::Bytes(_)),
        Kind::Enum(_) => matches!(v, Value::EnumNumber(_)),
        Kind::Message(id) => match v {
            Value::Message(m) => {
                if m.ty != *id {
                    return false;
                }
                proof {
                    assert(decreases_to!(*v => v->Message_0));
                    assert(v->Message_0 == *m);
                }
                check_message_value(pool, m)
            },
            _ => false,
        },
    }
}

/// Checks a whole dynamic message against its bound message type.
pub fn check_message_value(pool: &FileDescriptor, m: &DynamicMessage) -> (r: bool)
    requires
        pool.wf(),
    ensures
        r == message_ok(pool.types@, *m),
    decreases *m, 2int,
{
    if !(m.ty < pool.types.len()) {
        return false;
    }
    let def: &MessageDef = match &pool.types[m.ty] {
        TypeDef::Message(md) => md,
        TypeDef::Enum(_) => {
            return false;
        },
    };
    let n: usize = m.fields.len();
    let mut i: usize = 0;
    while i < n
        invariant
            pool.wf(),
            n == m.fields@.len(),
            0 <= i <= n,
            m.ty < pool.types@.len(),
            pool.types@[m.ty as int] is Message,
            *def == def_of(pool.types@, m.ty as int),
            forall|j: int|
                0 <= j < i ==> entry_ok(
                    pool.types@,
                    def_of(pool.types@, m.ty as int),
                    #[trigger] m.fields@[j],
                ),
            forall|a: int, b: int|
                0 <= a < b < i ==> m.fields@[a].number != m.fields@[b].number,
            forall|a: int, b: int|
                0 <= a < b < i ==> !spec_same_oneof(
                    def_of(pool.types@, m.ty as int),
                    m.fields@[a].number,
                    m.fields@[b].number,
                ),
        decreases n - i,
    {
        let e = &m.fields[i];
        match find_field_def_pub(def, e.number) {
            Some(f) => {
                proof {
                    assert(crate::pool::message_wf(*def, pool.types@));
                    lemma_find_field_props(def.fields@, e.number);
                    assert(decreases_to!(*m => m.fields));
                    assert(decreases_to!(m.fields => m.fields@[i as int]));
                    assert(decreases_to!(m.fields@[i as int] => m.fields@[i as int].value));
                }
                if !check_value(pool, f, &e.value) {
                    return false;
                }
            },
            None => {
                return false;
            },
        }
        let oi: Option<usize> = match find_field_def_pub(def, e.number) {
            Some(f) => f.oneof_index,
            None => None,
        };
        let mut j: usize = 0;
        while j < i
            invariant
                pool.wf(),
                n == m.fields@.len(),
                0 <= j <= i < n,
                m.ty < pool.types@.len(),
                pool.types@[m.ty as int] is Message,
                *def == def_of(pool.types@, m.ty as int),
                (match spec_find_field(def.fields@, m.fields@[i as int].number) {
                    Some(fi) => oi == def.fields@[fi].oneof_index,
                    None => oi is None,
                }),
                spec_find_field(def.fields@, m.fields@[i as int].number) is Some,
                forall|a: int| 0 <= a < j ==> m.fields@[a].number != m.fields@[i as int].number,
                forall|a: int|
                    0 <= a < j ==> !spec_same_oneof(
                        def_of(pool.types@, m.ty as int),
                        m.fields@[a].number,
                        m.fields@[i as int].number,
                    ),
            decreases i - j,
        {
            if m.fields[j].number == m.fields[i].number {
                return false;
            }
            let oj: Option<usize> = match find_field_def_pub(def, m.fields[j].number) {
                Some(f) => f.oneof_index,
                None => None,
            };
            let same: bool = match (oi, oj) {
                (Some(a), Some(b)) => a == b,
                _ => false,
            };
            if same {
                proof {
                    assert(spec_same_oneof(
                        def_of(pool.types@, m.ty as int),
                        m.fields@[j as int].number,
                        m.fields@[i as int].number,
                    ));
                }
                return false;
            }
            proof {
                assert(!spec_same_oneof(
                    def_of(pool.types@, m.ty as int),
                    m.fields@[j as int].number,
                    m.fields@[i as int].number,
                ));
            }
            j += 1;
        }
        i += 1;
    }
    true
}

fn check_key(k: &Kind, key: &MapKeyValue) -> (r: bool)
    ensures
        r == key_matches(*k, *key),
{
    match k {
        Kind::Bool => matches!(key, MapKeyValue::Bool(_)),
        Kind::Int32 => matches!(key, MapKeyValue::Int32(_)),
        Kind::Int64 => matches!(key, MapKeyValue::Int64(_)),
        Kind::Uint32 => matches!(key, MapKeyValue::Uint32(_)),
        Kind::Uint64 => matches!(key, MapKeyValue::Uint64(_)),
        Kind::Str => matches!(key, MapKeyValue::Str(_)),
        _ => false,
    }
}

/// True when the two map keys hold the same value, compared by view.
pub fn keys_equal(a: &MapKeyValue, b: &MapKeyValue) -> (r: bool)
    ensures
        r == (key_view(*a) == key_view(*b)),
{
    match (a, b) {
        (MapKeyValue::Bool(x), MapKeyValue::Bool(y)) => x == y,
        (MapKeyValue::Int32(x), MapKeyValue::Int32(y)) => x == y,
        (MapKeyValue::Int64(x), MapKeyValue::Int64(y)) => x == y,
        (MapKeyValue::Uint32(x), MapKeyValue::Uint32(y)) => x == y,
        (MapKeyValue::Uint64(x), MapKeyValue::Uint64(y)) => x == y,
        (MapKeyValue::Str(x), MapKeyValue::Str(y)) => {
            crate::names::bytes_eq(x.as_slice(), y.as_slice())
        },
        _ => false,
    }
}


/// Presence tracking: optional fields, oneof members and singular message
/// fields distinguish "not set" from "set to the default".
pub open spec fn has_presence(f: FieldDef) -> bool {
    ||| f.cardinality == Cardinality::Optional
    ||| (f.kind is Message && f.cardinality == Cardinality::Singular)
    ||| (f.oneof_index is Some && f.cardinality != Cardinality::Repeated)
}

/// The declared default read from an absent field without presence: zero,
/// empty, or the zero enum number; repeated and map fields read as empty
/// containers.
pub open spec fn default_matches(types: Seq<TypeDef>, f: FieldDef, r: Option<Value>) -> bool {
    if is_map_field(types, f) {
        r matches Some(Value::Mapping(m)) && m@.len() == 0
    } else if f.cardinality == Cardinality::Repeated {
        r matches Some(Value::List(l)) && l@.len() == 0
    } else {
        match f.kind {
            Kind::Bool => r == Some(Value::Bool(false)),
            Kind::Int32 => r == Some(Value::Int32(0i32)),
            Kind::Int64 => r == Some(Value::Int64(0i64)),
            Kind::Uint32 => r == Some(Value::Uint32(0u32)),
            Kind::Uint64 => r == Some(Value::Uint64(0u64)),
            Kind::Str => r matches Some(Value::Str(s)) && s@.len() == 0,
            Kind::Bytes => r matches Some(Value::Bytes(s)) && s@.len() == 0,
            Kind::Enum(_) => r == Some(Value::EnumNumber(0i32)),
            Kind::Message(_) => r is None,
        }
    }
}

/// Two distinct declared fields that are members of the same oneof group.
pub open spec fn spec_same_oneof(def: MessageDef, a: u32, b: u32) -> bool {
    &&& a != b
    &&& match (spec_find_field(def.fields@, a), spec_find_field(def.fields@, b)) {
        (Some(i), Some(j)) => def.fields@[i].oneof_index is Some && def.fields@[i].oneof_index
            == def.fields@[j].oneof_index,
        _ => false,
    }
}

/// Oneof siblinghood does not depend on the order of the two numbers.
pub proof fn lemma_same_oneof_sym(def: MessageDef, a: u32, b: u32)
    ensures
        spec_same_oneof(def, a, b) == spec_same_oneof(def, b, a),
{
}

/// Keeping an entry with number `m` while field `number` is being set: it
/// is another field and not a oneof sibling of the one being set.
pub open spec fn keeps(def: MessageDef, number: u32, m: u32) -> bool {
    m != number && !spec_same_oneof(def, number, m)
}

pub(crate) fn find_entry_index_pub(entries: &Vec<FieldValueEntry>, number: u32) -> (r: Option<usize>)
    ensures
        match r {
            Some(i) => spec_find_entry(entries@, number) == Some(i as int) && i < entries@.len(),
            None => spec_find_entry(entries@, number) is None,
        },
{
    let n: usize = entries.len();
    let mut i: usize = 0;
    while i < n
        invariant
            n == entries@.len(),
            0 <= i <= n,
            forall|j: int| 0 <= j < i ==> entries@[j].number != number,
        decreases n - i,
    {
        if entries[i].number == number {
            proof {
                lemma_find_entry_at(entries@, number, i as int);
            }
            return Some(i);
        }
        i += 1;
    }
    proof {
        lemma_find_entry_none(entries@, number);
    }
    None
}

impl DynamicMessage {
    /// A fresh instance of the given message type: all fields absent and no
    /// unknown records.
    pub fn new(desc: &crate::service::MessageDescriptor) -> (r: DynamicMessage)
        requires
            desc.wf(),
        ensures
            r.ty == desc.ty,
            r.fields@.len() == 0,
            r.unknown@.len() == 0,
            message_ok(desc.file_descriptor.types@, r),
    {
        DynamicMessage { ty: desc.type_id(), fields: Vec::new(), unknown: Vec::new() }
    }

    /// True when an entry for the field number is present (set), which is
    /// distinct from reading a default.
    pub fn has_field(&self, number: u32) -> (r: bool)
        ensures
            r == (spec_find_entry(self.fields@, number) is Some),
    {
        match find_entry_index_pub(&self.fields, number) {
            Some(_) => true,
            None => false,
        }
    }

    /// Reads a field: a copy of the stored value when present; for an
    /// absent field, the declared default when the field has no presence
    /// tracking, and `None` when it does (or is undeclared).
    pub fn get_field(&self, pool: &FileDescriptor, number: u32) -> (r: Option<Value>)
        requires
            pool.wf(),
            message_ok(pool.types@, *self),
        ensures
            match spec_find_entry(self.fields@, number) {
                Some(i) => r matches Some(v) && value_view(v) == value_view(
                    self.fields@[i].value,
                ),
                None => match spec_find_field(
                    def_of(pool.types@, self.ty as int).fields@,
                    number,
                ) {
                    Some(fi) => {
                        let f = def_of(pool.types@, self.ty as int).fields@[fi];
                        if has_presence(f) {
                            r is None
                        } else {
                            default_matches(pool.types@, f, r)
                        }
                    },
                    None => r is None,
                },
            },
    {
        match find_entry_index_pub(&self.fields, number) {
            Some(i) => Some(self.fields[i].value.deep_clone()),
            None => {
                let def: &MessageDef = match &pool.types[self.ty] {
                    TypeDef::Message(md) => md,
                    TypeDef::Enum(_) => vstd::pervasive::unreached(),
                };
                match find_field_def_pub(def, number) {
                    None => None,
                    Some(f) => {
                        proof {
                            assert(crate::pool::message_wf(*def, pool.types@));
                            lemma_find_field_props(def.fields@, number);
                            assert(crate::pool::kind_wf(f.kind, pool.types@));
                        }
                        let map_field: bool = match f.kind {
                            Kind::Message(id) => {
                                if f.cardinality == Cardinality::Repeated {
                                    match &pool.types[id] {
                                        TypeDef::Message(md) => md.is_map_entry,
                                        TypeDef::Enum(_) => false,
                                    }
                                } else {
                                    false
                                }
                            },
                            _ => false,
                        };
                        if map_field {
                            Some(Value::Mapping(Vec::new()))
                        } else if f.cardinality == Cardinality::Repeated {
                            Some(Value::List(Vec::new()))
                        } else if f.cardinality == Cardinality::Optional || matches!(
                            f.oneof_index,
                            Some(_),
                        ) {
                            None
                        } else {
                            match f.kind {
                                Kind::Bool => Some(Value::Bool(false)),
                                Kind::Int32 => Some(Value::Int32(0)),
                                Kind::Int64 => Some(Value::Int64(0)),
                                Kind::Uint32 => Some(Value::Uint32(0)),
                                Kind::Uint64 => Some(Value::Uint64(0)),
                                Kind::Str => Some(Value::Str(Vec::new())),
                                Kind::Bytes => Some(Value::Bytes(Vec::new())),
                                Kind::Enum(_) => Some(Value::EnumNumber(0)),
                                Kind::Message(_) => None,
                            }
                        }
                    },
                }
            },
        }
    }

    /// Sets a field to a value, after checking the value's shape against
    /// the field's declared kind and cardinality.  Setting a oneof member
    /// clears any previously set member of the same oneof; every other
    /// present field is untouched.  On failure nothing is mutated.
    pub fn set_field(&mut self, pool: &FileDescriptor, number: u32, value: Value) -> (r: Result<
        (),
        crate::TypeError,
    >)
        requires
            pool.wf(),
            message_ok(pool.types@, *old(self)),
        ensures
            message_ok(pool.types@, *final(self)),
            final(self).ty == old(self).ty,
            final(self).unknown == old(self).unknown,
            match r {
                Ok(()) => {
                    let def = def_of(pool.types@, old(self).ty as int);
                    &&& get_view(*final(self), number) == Some(value_view(value))
                    &&& forall|m: u32|
                        spec_same_oneof(def, number, m) ==> get_view(*final(self), m) is None
                    &&& forall|m: u32|
                        m != number && !spec_same_oneof(def, number, m) ==> get_view(
                            *final(self),
                            m,
                        ) == get_view(*old(self), m)
                },
                Err(e) => {
                    let def = def_of(pool.types@, old(self).ty as int);
                    &&& *final(self) == *old(self)
                    &&& match spec_find_field(def.fields@, number) {
                        None => e == crate::TypeError::UnknownField(number),
                        Some(fi) => !value_ok(pool.types@, def.fields@[fi], value) && e
                            == crate::TypeError::KindMismatch(number),
                    }
                },
            },
    {
        let ghost def_g = def_of(pool.types@, self.ty as int);
        let def: &MessageDef = match &pool.types[self.ty] {
            TypeDef::Message(md) => md,
            TypeDef::Enum(_) => vstd::pervasive::unreached(),
        };
        let f: &FieldDef = match find_field_def_pub(def, number) {
            Some(f) => f,
            None => {
                return Err(crate::TypeError::UnknownField(number));
            },
        };
        proof {
            assert(crate::pool::message_wf(*def, pool.types@));
            lemma_find_field_props(def.fields@, number);
        }
        if !check_value(pool, f, &value) {
            return Err(crate::TypeError::KindMismatch(number));
        }
        let oneof: Option<usize> = f.oneof_index;
        let ghost oldself = *self;
        let mut drained: Vec<FieldValueEntry> = Vec::new();
        core::mem::swap(&mut self.fields, &mut drained);
        let n: usize = drained.len();
        let mut rev: Vec<FieldValueEntry> = Vec::new();
        while drained.len() > 0
            invariant
                n == oldself.fields@.len(),
                rev@.len() + drained@.len() == n,
                drained@ == oldself.fields@.subrange(0, drained@.len() as int),
                forall|k: int|
                    0 <= k < rev@.len() ==> rev@[k] == oldself.fields@[n - 1 - k],
            decreases drained@.len(),
        {
            match drained.pop() {
                Some(e) => {
                    proof {
                        assert(oldself.fields@.subrange(
                            0,
                            drained@.len() + 1int,
                        ).drop_last() =~= oldself.fields@.subrange(0, drained@.len() as int));
                        assert(e == oldself.fields@[drained@.len() as int]);
                    }
                    rev.push(e);
                },
                None => {
                    proof {
                        assert(false);
                    }
                },
            }
        }
        let ghost types = pool.types@;
        let mut processed: usize = 0;
        while rev.len() > 0
            invariant
                pool.wf(),
                n == oldself.fields@.len(),
                def_g == def_of(types, oldself.ty as int),
                types == pool.types@,
                oldself.ty < types.len() && types[oldself.ty as int] is Message,
                message_ok(types, oldself),
                *def == def_g,
                spec_find_field(def_g.fields@, number) matches Some(fi) && *f == def_g.fields@[fi],
                value_ok(types, *f, value),
                oneof == f.oneof_index,
                processed + rev@.len() == n,
                forall|k: int|
                    0 <= k < rev@.len() ==> rev@[k] == oldself.fields@[n - 1 - k],
                self.ty == oldself.ty,
                self.unknown == oldself.unknown,
                forall|k: int|
                    0 <= k < self.fields@.len() ==> keeps(
                        def_g,
                        number,
                        (#[trigger] self.fields@[k]).number,
                    ),
                forall|k: int|
                    0 <= k < self.fields@.len() ==> entry_ok(
                        types,
                        def_g,
                        #[trigger] self.fields@[k],
                    ),
                forall|a: int, b: int|
                    0 <= a < b < self.fields@.len() ==> self.fields@[a].number
                        != self.fields@[b].number,
                forall|m: u32|
                    #![trigger spec_find_entry(self.fields@, m)]
                    keeps(def_g, number, m) ==> {
                        let prefix = oldself.fields@.subrange(0, processed as int);
                        match spec_find_entry(prefix, m) {
                            Some(p) => spec_find_entry(self.fields@, m) matches Some(q)
                                && self.fields@[q] == prefix[p],
                            None => spec_find_entry(self.fields@, m) is None,
                        }
                    },
            decreases rev@.len(),
        {
            let e = match rev.pop() {
                Some(e) => e,
                None => vstd::pervasive::unreached(),
            };
            proof {
                assert(e == oldself.fields@[processed as int]);
            }
            let m: u32 = e.number;
            let keep: bool = if m == number {
                false
            } else {
                match oneof {
                    None => true,
                    Some(o) => match find_field_def_pub(def, m) {
                        Some(fe) => match fe.oneof_index {
                            Some(oo) => oo != o,
                            None => true,
                        },
                        None => true,
                    },
                }
            };
            proof {
                lemma_find_field_props(def_g.fields@, m);
                assert(keep == keeps(def_g, number, m));
            }
            let ghost prev_fields = self.fields@;
            let ghost prefix = oldself.fields@.subrange(0, processed as int);
            if keep {
                proof {
                    // the incoming entry's number is not yet present: the
                    // message being rebuilt held it only at index `processed`
                    assert forall|p: int| 0 <= p < prefix.len() implies prefix[p].number
                        != e.number by {
                        assert(prefix[p] == oldself.fields@[p]);
                    }
                    lemma_find_entry_none(prefix, e.number);
                    assert(spec_find_entry(prev_fields, e.number) is None);
                    lemma_find_entry_props(prev_fields, e.number);
                }
                self.fields.push(e);
                proof {
                    assert(entry_ok(types, def_g, oldself.fields@[processed as int]));
                }
            }
            processed += 1;
            proof {
                assert(oldself.fields@.subrange(0, processed as int) =~= prefix.push(e));
                assert forall|mm: u32|
                    #![trigger spec_find_entry(self.fields@, mm)]
                    keeps(def_g, number, mm) implies {
                    let prefix2 = oldself.fields@.subrange(0, processed as int);
                    match spec_find_entry(prefix2, mm) {
                        Some(p) => spec_find_entry(self.fields@, mm) matches Some(q)
                            && self.fields@[q] == prefix2[p],
                        None => spec_find_entry(self.fields@, mm) is None,
                    }
                } by {
                    lemma_find_entry_push(prefix, e, mm);
                    lemma_find_entry_props(prev_fields, mm);
                    lemma_find_entry_props(prefix, mm);
                    if keep {
                        lemma_find_entry_push(prev_fields, e, mm);
                    } else {
                        if e.number == mm {
                            assert(!keeps(def_g, number, mm));
                        }
                    }
                }
            }
        }
        proof {
            assert(oldself.fields@.subrange(0, n as int) =~= oldself.fields@);
        }
        let ghost before_push = self.fields@;
        self.fields.push(FieldValueEntry { number, value });
        proof {
            let ghost pushed = self.fields@.last();
            assert(pushed.number == number && value_view(pushed.value) == value_view(value)
                && pushed.value == value);
            assert(self.fields@.drop_last() =~= before_push);
            assert forall|k: int|
                0 <= k < before_push.len() implies before_push[k].number != number by {
                assert(keeps(def_g, number, before_push[k].number));
            }
            lemma_find_entry_none(before_push, number);
            lemma_find_entry_push(before_push, pushed, number);
            assert(self.fields@ =~= before_push.push(pushed));
            assert(spec_find_entry(self.fields@, number) == Some(before_push.len() as int));
            assert(get_view(*self, number) == Some(value_view(value)));
            assert forall|m: u32|
                spec_same_oneof(def_g, number, m) implies get_view(*self, m) is None by {
                assert(m != number);
                assert forall|k: int|
                    0 <= k < before_push.len() implies before_push[k].number != m by {
                    assert(keeps(def_g, number, before_push[k].number));
                }
                lemma_find_entry_none(before_push, m);
                lemma_find_entry_push(before_push, pushed, m);
            }
            assert forall|m: u32|
                m != number && !spec_same_oneof(def_g, number, m) implies get_view(*self, m)
                == get_view(oldself, m) by {
                assert(keeps(def_g, number, m));
                let fb = spec_find_entry(before_push, m);
                lemma_find_entry_push(before_push, pushed, m);
                lemma_find_entry_props(before_push, m);
                lemma_find_entry_props(oldself.fields@, m);
            }
            assert forall|k: int|
                0 <= k < self.fields@.len() implies entry_ok(
                types,
                def_of(types, self.ty as int),
                #[trigger] self.fields@[k],
            ) by {
                if k < before_push.len() {
                    assert(self.fields@[k] == before_push[k]);
                } else {
                    assert(self.fields@[k] == pushed);
                    assert(value_ok(types, def_g.fields@[
                        spec_find_field(def_g.fields@, number)->Some_0
                    ], value));
                }
            }
            assert forall|a: int, b: int|
                0 <= a < b < self.fields@.len() implies self.fields@[a].number
                != self.fields@[b].number by {
                if b == self.fields@.len() - 1 {
                    assert(self.fields@[a] == before_push[a]);
                    assert(keeps(def_g, number, before_push[a].number));
                }
            }
            assert forall|a: int, b: int|
                0 <= a < b < self.fields@.len() implies !spec_same_oneof(
                def_of(types, self.ty as int),
                self.fields@[a].number,
                self.fields@[b].number,
            ) by {
                if b == before_push.len() {
                    // the pair holds the newly set field; its kept partner
                    // is no sibling, by the keep condition
                    assert(self.fields@[a] == before_push[a]);
                    assert(self.fields@[b] == pushed);
                    assert(keeps(def_g, number, before_push[a].number));
                    lemma_same_oneof_sym(def_g, number, before_push[a].number);
                } else {
                    // both entries were kept: each occurs in the original
                    // message, whose invariant forbids sibling pairs
                    assert(self.fields@[a] == before_push[a]);
                    assert(self.fields@[b] == before_push[b]);
                    let na = before_push[a].number;
                    let nb = before_push[b].number;
                    assert forall|j: int|
                        0 <= j < a implies before_push[j].number != na by {}
                    lemma_find_entry_at(before_push, na, a);
                    assert forall|j: int|
                        0 <= j < b implies before_push[j].number != nb by {}
                    lemma_find_entry_at(before_push, nb, b);
                    assert(keeps(def_g, number, na));
                    assert(keeps(def_g, number, nb));
                    assert(spec_find_entry(oldself.fields@, na) is Some);
                    assert(spec_find_entry(oldself.fields@, nb) is Some);
                    lemma_find_entry_props(oldself.fields@, na);
                    lemma_find_entry_props(oldself.fields@, nb);
                    let pa = spec_find_entry(oldself.fields@, na)->Some_0;
                    let pb = spec_find_entry(oldself.fields@, nb)->Some_0;
                    assert(oldself.fields@[pa].number == na);
                    assert(oldself.fields@[pb].number == nb);
                    assert(pa != pb);
                    if pa < pb {
                        assert(!spec_same_oneof(def_g, na, nb));
                    } else {
                        assert(!spec_same_oneof(def_g, nb, na));
                        lemma_same_oneof_sym(def_g, nb, na);
                    }
                }
            }
            assert(message_ok(types, *self));
        }
        Ok(())
    }
}

} // verus!
