//! The descriptor pool: derived, immutable metadata for every declared type.
//!
//! All entities live in one arena (`types`) and every cross reference is an
//! integer identifier into it.  A parallel list `type_names` holds each
//! type's full name and is the index that name resolution searches.
//! Resolution follows protobuf scoping: an absolute reference (leading dot)
//! is looked up directly; a relative reference is tried at the innermost
//! enclosing scope first and then outward to the package root.

use vstd::prelude::*;
use vstd::slice::slice_subrange;

use crate::DescriptorError;
use crate::names::{
    DOT, ascii_bytes, bytes_eq, check_ascii, copy_bytes, full_name_of, lemma_last_dot_bounds,
    make_full_name, namespace_part, parse_namespace_bytes, to_json_name,
};
use crate::schema::{Cardinality, EnumSchema, FieldSchema, FileSchema, MessageSchema, MethodSchema, ScalarKind, SchemaType, ServiceSchema};

verus! {

/// A field's resolved kind: a scalar, or the type identifier of an enum or
/// message in the same pool.
#[derive(Clone, Copy, PartialEq, Eq, Structural, Debug)]
pub enum Kind {
    Bool,
    Int32,
    Int64,
    Uint32,
    Uint64,
    Str,
    Bytes,
    Enum(usize),
    Message(usize),
}

/// Derived metadata for one field.
#[derive(Debug)]
pub struct FieldDef {
    pub name: Vec<u8>,
    pub number: u32,
    pub json_name: Vec<u8>,
    pub kind: Kind,
    pub cardinality: Cardinality,
    pub oneof_index: Option<usize>,
}

/// Derived metadata for one oneof group: its name and the numbers of its
/// member fields.
#[derive(Debug)]
pub struct OneofDef {
    pub name: Vec<u8>,
    pub members: Vec<u32>,
}

/// Derived metadata for one message type.
#[derive(Debug)]
pub struct MessageDef {
    pub full_name: Vec<u8>,
    pub fields: Vec<FieldDef>,
    pub oneofs: Vec<OneofDef>,
    pub is_map_entry: bool,
}

/// Derived metadata for one enum value.
#[derive(Debug)]
pub struct EnumValueDef {
    pub name: Vec<u8>,
    pub number: i32,
}

/// Derived metadata for one enum type.
#[derive(Debug)]
pub struct EnumDef {
    pub full_name: Vec<u8>,
    pub values: Vec<EnumValueDef>,
}

/// One entry of the pool's type arena.
#[derive(Debug)]
pub enum TypeDef {
    Message(MessageDef),
    Enum(EnumDef),
}

/// Derived metadata for one service method.
#[derive(Debug)]
pub struct MethodInner {
    pub full_name: Vec<u8>,
    pub request_ty: usize,
    pub response_ty: usize,
    pub client_streaming: bool,
    pub server_streaming: bool,
}

/// Derived metadata for one service.
#[derive(Debug)]
pub struct ServiceInner {
    pub full_name: Vec<u8>,
    pub methods: Vec<MethodInner>,
}

/// An immutable descriptor pool built from one or more file schemas.
///
/// After a successful build the pool is never mutated; handles address it by
/// integer indices that stay stable for its lifetime.
#[derive(Debug)]
pub struct FileDescriptor {
    /// Full name of each type, parallel to `types`; the resolution index.
    pub type_names: Vec<Vec<u8>>,
    /// The arena of all message and enum types across all ingested files.
    pub types: Vec<TypeDef>,
    /// All declared services.
    pub services: Vec<ServiceInner>,
}

/// The full name of an arena entry.
pub open spec fn type_full_name(t: TypeDef) -> Seq<u8> {
    match t {
        TypeDef::Message(m) => m.full_name@,
        TypeDef::Enum(e) => e.full_name@,
    }
}

/// The byte-sequence views of a list of names.
pub open spec fn views_of(names: Seq<Vec<u8>>) -> Seq<Seq<u8>> {
    names.map_values(|v: Vec<u8>| v@)
}

/// Index of the first name equal to `name`, if any.
pub open spec fn spec_find(names: Seq<Seq<u8>>, name: Seq<u8>) -> Option<int>
    decreases names.len(),
{
    if names.len() == 0 {
        None
    } else if names[0] == name {
        Some(0int)
    } else {
        match spec_find(names.drop_first(), name) {
            Some(i) => Some(i + 1),
            None => None,
        }
    }
}

/// Protobuf name resolution: an absolute reference (leading dot) is looked
/// up directly; a relative one is searched from the innermost enclosing
/// scope of `ns` outward to the root.
pub open spec fn spec_resolve(names: Seq<Seq<u8>>, ns: Seq<u8>, name: Seq<u8>) -> Option<int>
    decreases ns.len(),
    via spec_resolve_dec
{
    if name.len() > 0 && name[0] == DOT {
        spec_find(names, name.drop_first())
    } else if ns.len() == 0 {
        spec_find(names, name)
    } else {
        match spec_find(names, full_name_of(ns, name)) {
            Some(i) => Some(i),
            None => spec_resolve(names, namespace_part(ns), name),
        }
    }
}

#[via_fn]
proof fn spec_resolve_dec(names: Seq<Seq<u8>>, ns: Seq<u8>, name: Seq<u8>) {
    lemma_last_dot_bounds(ns);
}

/// An absolute reference resolves the same at every scope.
pub proof fn lemma_absolute_resolution_scope_free(
    names: Seq<Seq<u8>>,
    ns1: Seq<u8>,
    ns2: Seq<u8>,
    name: Seq<u8>,
)
    requires
        name.len() > 0,
        name[0] == DOT,
    ensures
        spec_resolve(names, ns1, name) == spec_resolve(names, ns2, name),
{
}

/// A resolved identifier always addresses an entry of the name index.
pub proof fn lemma_resolve_in_range(names: Seq<Seq<u8>>, ns: Seq<u8>, name: Seq<u8>)
    ensures
        spec_resolve(names, ns, name) matches Some(i) ==> 0 <= i < names.len(),
    decreases ns.len(),
{
    lemma_find_gives_name(names, name);
    if name.len() > 0 && name[0] == DOT {
        lemma_find_gives_name(names, name.drop_first());
    } else if ns.len() > 0 {
        lemma_find_gives_name(names, full_name_of(ns, name));
        lemma_last_dot_bounds(ns);
        lemma_resolve_in_range(names, namespace_part(ns), name);
    }
}

/// A found index holds exactly the name searched for.
pub proof fn lemma_find_gives_name(names: Seq<Seq<u8>>, name: Seq<u8>)
    ensures
        spec_find(names, name) matches Some(i) ==> 0 <= i < names.len() && names[i] == name,
    decreases names.len(),
{
    if names.len() > 0 && !(names[0] == name) {
        lemma_find_gives_name(names.drop_first(), name);
    }
}

proof fn lemma_find_none(names: Seq<Seq<u8>>, name: Seq<u8>)
    requires
        forall|i: int| 0 <= i < names.len() ==> names[i] != name,
    ensures
        spec_find(names, name) is None,
    decreases names.len(),
{
    if names.len() > 0 {
        assert(forall|i: int|
            0 <= i < names.len() - 1 ==> names.drop_first()[i] == names[i + 1]);
        lemma_find_none(names.drop_first(), name);
    }
}

proof fn lemma_find_at(names: Seq<Seq<u8>>, name: Seq<u8>, i: int)
    requires
        0 <= i < names.len(),
        names[i] == name,
        forall|j: int| 0 <= j < i ==> names[j] != name,
    ensures
        spec_find(names, name) == Some(i),
    decreases names.len(),
{
    if i > 0 {
        assert(forall|j: int|
            0 <= j < names.len() - 1 ==> names.drop_first()[j] == names[j + 1]);
        lemma_find_at(names.drop_first(), name, i - 1);
    }
}

/// Finds the first name equal to `target`, scanning the index in order.
pub(crate) fn find_name(names: &Vec<Vec<u8>>, target: &[u8]) -> (r: Option<usize>)
    ensures
        match r {
            Some(i) => i < names@.len() && spec_find(views_of(names@), target@) == Some(i as int),
            None => spec_find(views_of(names@), target@) is None,
        },
{
    let n: usize = names.len();
    let mut i: usize = 0;
    while i < n
        invariant
            n == names@.len(),
            0 <= i <= n,
            forall|j: int| 0 <= j < i ==> views_of(names@)[j] != target@,
        decreases n - i,
    {
        if bytes_eq(names[i].as_slice(), target) {
            proof {
                assert(views_of(names@)[i as int] == target@);
                lemma_find_at(views_of(names@), target@, i as int);
            }
            return Some(i);
        }
        proof {
            assert(views_of(names@)[i as int] == names@[i as int]@);
        }
        i += 1;
    }
    proof {
        lemma_find_none(views_of(names@), target@);
    }
    None
}

/// Resolves a type reference against the name index, applying protobuf
/// scoping rules; fails with `TypeNotFound` when no scope holds a match.
pub(crate) fn resolve_in(names: &Vec<Vec<u8>>, ns: &[u8], name: &[u8]) -> (r: Result<
    usize,
    DescriptorError,
>)
    ensures
        match spec_resolve(views_of(names@), ns@, name@) {
            Some(i) => r == Ok::<usize, DescriptorError>(i as usize),
            None => r matches Err(DescriptorError::TypeNotFound(e)) && e@ == name@,
        },
        r matches Ok(i) ==> i < names@.len(),
{
    if name.len() > 0 && name[0] == DOT {
        let abs: &[u8] = slice_subrange(name, 1, name.len());
        proof {
            assert(abs@ =~= name@.drop_first());
        }
        match find_name(names, abs) {
            Some(i) => Ok(i),
            None => Err(DescriptorError::TypeNotFound(crate::names::make_full_name(
                &[],
                name,
            ))),
        }
    } else {
        let mut scope: &[u8] = ns;
        loop
            invariant
                spec_resolve(views_of(names@), ns@, name@) == spec_resolve(
                    views_of(names@),
                    scope@,
                    name@,
                ),
                name@.len() > 0 ==> name@[0] != DOT,
            decreases scope@.len(),
        {
            if scope.len() == 0 {
                match find_name(names, name) {
                    Some(i) => {
                        proof {
                            assert(spec_resolve(views_of(names@), scope@, name@) == Some(
                                i as int,
                            ));
                        }
                        return Ok(i);
                    },
                    None => {
                        return Err(DescriptorError::TypeNotFound(
                            crate::names::make_full_name(&[], name),
                        ));
                    },
                }
            } else {
                let full: Vec<u8> = make_full_name(scope, name);
                match find_name(names, full.as_slice()) {
                    Some(i) => {
                        proof {
                            assert(full@ == full_name_of(scope@, name@));
                            assert(spec_resolve(views_of(names@), scope@, name@) == Some(
                                i as int,
                            ));
                        }
                        return Ok(i);
                    },
                    None => {},
                }
                proof {
                    lemma_last_dot_bounds(scope@);
                }
                scope = parse_namespace_bytes(scope);
            }
        }
    }
}


/// Validity of a resolved kind against the arena: a referenced identifier
/// addresses an existing type of the right flavor.
pub open spec fn kind_wf(k: Kind, types: Seq<TypeDef>) -> bool {
    match k {
        Kind::Enum(id) => id < types.len() && types[id as int] is Enum,
        Kind::Message(id) => id < types.len() && types[id as int] is Message,
        _ => true,
    }
}

/// Kinds legal as protobuf map keys: integers, bool and strings only.
pub open spec fn map_key_kind(k: Kind) -> bool {
    match k {
        Kind::Bool => true,
        Kind::Int32 => true,
        Kind::Int64 => true,
        Kind::Uint32 => true,
        Kind::Uint64 => true,
        Kind::Str => true,
        _ => false,
    }
}

pub open spec fn field_wf(f: FieldDef, types: Seq<TypeDef>, n_oneofs: int) -> bool {
    &&& kind_wf(f.kind, types)
    &&& ascii_bytes(f.name@)
    &&& ascii_bytes(f.json_name@)
    &&& f.number >= 1
    &&& match f.oneof_index {
        Some(o) => o < n_oneofs,
        None => true,
    }
}

/// The byte string `key`, the required name of a map entry's first field.
pub open spec fn key_name_seq() -> Seq<u8> {
    seq![107u8, 101u8, 121u8]
}

/// The byte string `value`, the required name of a map entry's second
/// field.
pub open spec fn value_name_seq() -> Seq<u8> {
    seq![118u8, 97u8, 108u8, 117u8, 101u8]
}

/// Oneof member `k` of group `o` is the number of a declared field that
/// belongs to that group; with field numbers unique, it appears in the
/// field list exactly once.
pub open spec fn oneof_member_wf(m: MessageDef, o: int, k: int) -> bool {
    exists|fi: int|
        0 <= fi < m.fields@.len() && (#[trigger] m.fields@[fi]).number
            == m.oneofs@[o].members@[k] && m.fields@[fi].oneof_index == Some(o as usize)
}

pub open spec fn message_wf(m: MessageDef, types: Seq<TypeDef>) -> bool {
    &&& ascii_bytes(m.full_name@)
    &&& forall|i: int|
        0 <= i < m.fields@.len() ==> field_wf(
            #[trigger] m.fields@[i],
            types,
            m.oneofs@.len() as int,
        )
    &&& forall|i: int, j: int|
        0 <= i < j < m.fields@.len() ==> m.fields@[i].number != m.fields@[j].number
    &&& m.is_map_entry ==> {
        &&& m.fields@.len() == 2
        &&& m.fields@[0].number == 1
        &&& m.fields@[1].number == 2
        &&& m.fields@[0].name@ == key_name_seq()
        &&& m.fields@[1].name@ == value_name_seq()
        &&& map_key_kind(m.fields@[0].kind)
        &&& m.fields@[0].cardinality == Cardinality::Singular
        &&& m.fields@[1].cardinality == Cardinality::Singular
    }
    &&& forall|o: int, k: int|
        0 <= o < m.oneofs@.len() && 0 <= k < m.oneofs@[o].members@.len()
            ==> oneof_member_wf(m, o, k)
}

pub open spec fn enum_wf(e: EnumDef) -> bool {
    &&& ascii_bytes(e.full_name@)
    &&& forall|i: int| 0 <= i < e.values@.len() ==> ascii_bytes(#[trigger] e.values@[i].name@)
}

pub open spec fn type_wf(t: TypeDef, types: Seq<TypeDef>) -> bool {
    match t {
        TypeDef::Message(m) => message_wf(m, types),
        TypeDef::Enum(e) => enum_wf(e),
    }
}

pub open spec fn method_wf(m: MethodInner, types: Seq<TypeDef>) -> bool {
    &&& ascii_bytes(m.full_name@)
    &&& m.request_ty < types.len() && types[m.request_ty as int] is Message
    &&& m.response_ty < types.len() && types[m.response_ty as int] is Message
}

pub open spec fn service_wf(s: ServiceInner, types: Seq<TypeDef>) -> bool {
    &&& ascii_bytes(s.full_name@)
    &&& forall|i: int| 0 <= i < s.methods@.len() ==> method_wf(#[trigger] s.methods@[i], types)
}

impl FileDescriptor {
    /// The pool invariant: the name index is parallel to the arena, full
    /// names are unique, and every cross reference addresses an existing
    /// type of the right flavor.
    pub open spec fn wf(self) -> bool {
        &&& self.type_names@.len() == self.types@.len()
        &&& forall|i: int|
            0 <= i < self.types@.len() ==> (#[trigger] self.type_names@[i])@ == type_full_name(
                self.types@[i],
            )
        &&& forall|i: int, j: int|
            0 <= i < j < self.types@.len() ==> self.type_names@[i]@ != self.type_names@[j]@
        &&& forall|i: int| 0 <= i < self.types@.len() ==> type_wf(#[trigger] self.types@[i], self.types@)
        &&& forall|i: int|
            0 <= i < self.services@.len() ==> service_wf(#[trigger] self.services@[i], self.types@)
    }

    /// Resolves a dotted type reference from the given namespace, per
    /// protobuf scoping rules; exactly the references that
    /// [`spec_resolve`] maps to an identifier succeed.
    pub fn resolve_type_name(&self, ns: &[u8], name: &[u8]) -> (r: Result<usize, DescriptorError>)
        ensures
            match spec_resolve(views_of(self.type_names@), ns@, name@) {
                Some(i) => r == Ok::<usize, DescriptorError>(i as usize),
                None => r matches Err(DescriptorError::TypeNotFound(e)) && e@ == name@,
            },
            r matches Ok(i) ==> i < self.type_names@.len(),
    {
        resolve_in(&self.type_names, ns, name)
    }
}

fn check_kind(k: Kind, types: &Vec<TypeDef>) -> (r: bool)
    ensures
        r == kind_wf(k, types@),
{
    match k {
        Kind::Enum(id) => id < types.len() && (match types[id] {
            TypeDef::Enum(_) => true,
            _ => false,
        }),
        Kind::Message(id) => id < types.len() && (match types[id] {
            TypeDef::Message(_) => true,
            _ => false,
        }),
        _ => true,
    }
}

fn check_map_key_kind(k: Kind) -> (r: bool)
    ensures
        r == map_key_kind(k),
{
    match k {
        Kind::Bool => true,
        Kind::Int32 => true,
        Kind::Int64 => true,
        Kind::Uint32 => true,
        Kind::Uint64 => true,
        Kind::Str => true,
        _ => false,
    }
}

fn check_field(f: &FieldDef, types: &Vec<TypeDef>, n_oneofs: usize) -> (r: bool)
    ensures
        r == field_wf(*f, types@, n_oneofs as int),
{
    if !check_kind(f.kind, types) {
        return false;
    }
    if !check_ascii(f.name.as_slice()) {
        return false;
    }
    if !check_ascii(f.json_name.as_slice()) {
        return false;
    }
    if f.number < 1 {
        return false;
    }
    match f.oneof_index {
        Some(o) => o < n_oneofs,
        None => true,
    }
}

fn check_message(m: &MessageDef, types: &Vec<TypeDef>) -> (r: bool)
    ensures
        r == message_wf(*m, types@),
{
    if !check_ascii(m.full_name.as_slice()) {
        return false;
    }
    let nf: usize = m.fields.len();
    let mut i: usize = 0;
    while i < nf
        invariant
            nf == m.fields@.len(),
            0 <= i <= nf,
            forall|a: int|
                0 <= a < i ==> field_wf(#[trigger] m.fields@[a], types@, m.oneofs@.len() as int),
            forall|a: int, b: int|
                0 <= a < b < i ==> m.fields@[a].number != m.fields@[b].number,
        decreases nf - i,
    {
        if !check_field(&m.fields[i], types, m.oneofs.len()) {
            return false;
        }
        let mut j: usize = 0;
        while j < i
            invariant
                nf == m.fields@.len(),
                0 <= j <= i < nf,
                forall|a: int| 0 <= a < j ==> m.fields@[a].number != m.fields@[i as int].number,
            decreases i - j,
        {
            if m.fields[j].number == m.fields[i].number {
                return false;
            }
            j += 1;
        }
        i += 1;
    }
    if m.is_map_entry {
        if m.fields.len() != 2 {
            return false;
        }
        if m.fields[0].number != 1 || m.fields[1].number != 2 {
            return false;
        }
        let kn: &Vec<u8> = &m.fields[0].name;
        if !(kn.len() == 3 && kn[0] == 107 && kn[1] == 101 && kn[2] == 121) {
            proof {
                if kn@ == key_name_seq() {
                    assert(kn@.len() == 3 && kn@[0] == 107 && kn@[1] == 101 && kn@[2] == 121);
                }
            }
            return false;
        }
        proof {
            assert(kn@ =~= key_name_seq());
        }
        let vn: &Vec<u8> = &m.fields[1].name;
        if !(vn.len() == 5 && vn[0] == 118 && vn[1] == 97 && vn[2] == 108 && vn[3] == 117
            && vn[4] == 101) {
            proof {
                if vn@ == value_name_seq() {
                    assert(vn@.len() == 5 && vn@[0] == 118 && vn@[1] == 97 && vn@[2] == 108
                        && vn@[3] == 117 && vn@[4] == 101);
                }
            }
            return false;
        }
        proof {
            assert(vn@ =~= value_name_seq());
        }
        if !check_map_key_kind(m.fields[0].kind) {
            return false;
        }
        if !(m.fields[0].cardinality == Cardinality::Singular) {
            return false;
        }
        if !(m.fields[1].cardinality == Cardinality::Singular) {
            return false;
        }
    }
    let no: usize = m.oneofs.len();
    let mut o: usize = 0;
    while o < no
        invariant
            no == m.oneofs@.len(),
            0 <= o <= no,
            nf == m.fields@.len(),
            forall|oo: int, kk: int|
                0 <= oo < o && 0 <= kk < m.oneofs@[oo].members@.len() ==> oneof_member_wf(
                    *m,
                    oo,
                    kk,
                ),
        decreases no - o,
    {
        let nk: usize = m.oneofs[o].members.len();
        let mut k: usize = 0;
        while k < nk
            invariant
                no == m.oneofs@.len(),
                0 <= o < no,
                nk == m.oneofs@[o as int].members@.len(),
                0 <= k <= nk,
                nf == m.fields@.len(),
                forall|kk: int| 0 <= kk < k ==> oneof_member_wf(*m, o as int, kk),
            decreases nk - k,
        {
            let num: u32 = m.oneofs[o].members[k];
            let mut found: bool = false;
            let mut fi: usize = 0;
            while fi < nf
                invariant
                    nf == m.fields@.len(),
                    no == m.oneofs@.len(),
                    0 <= o < no,
                    nk == m.oneofs@[o as int].members@.len(),
                    0 <= k < nk,
                    num == m.oneofs@[o as int].members@[k as int],
                    0 <= fi <= nf,
                    !found ==> forall|j: int|
                        0 <= j < fi ==> !((#[trigger] m.fields@[j]).number == num
                            && m.fields@[j].oneof_index == Some(o)),
                    found ==> oneof_member_wf(*m, o as int, k as int),
                decreases nf - fi,
            {
                let fld = &m.fields[fi];
                let is_member: bool = fld.number == num && (match fld.oneof_index {
                    Some(oi) => oi == o,
                    None => false,
                });
                if is_member {
                    found = true;
                    proof {
                        assert(m.fields@[fi as int].number == num && m.fields@[
                            fi as int
                        ].oneof_index == Some(o));
                        assert(oneof_member_wf(*m, o as int, k as int));
                    }
                    fi = nf;
                } else {
                    fi += 1;
                }
            }
            if !found {
                proof {
                    assert(!oneof_member_wf(*m, o as int, k as int));
                }
                return false;
            }
            k += 1;
        }
        o += 1;
    }
    true
}

fn check_enum(e: &EnumDef) -> (r: bool)
    ensures
        r == enum_wf(*e),
{
    if !check_ascii(e.full_name.as_slice()) {
        return false;
    }
    let n: usize = e.values.len();
    let mut i: usize = 0;
    while i < n
        invariant
            n == e.values@.len(),
            0 <= i <= n,
            forall|a: int| 0 <= a < i ==> ascii_bytes(#[trigger] e.values@[a].name@),
        decreases n - i,
    {
        if !check_ascii(e.values[i].name.as_slice()) {
            return false;
        }
        i += 1;
    }
    true
}

fn check_service(s: &ServiceInner, types: &Vec<TypeDef>) -> (r: bool)
    ensures
        r == service_wf(*s, types@),
{
    if !check_ascii(s.full_name.as_slice()) {
        return false;
    }
    let n: usize = s.methods.len();
    let mut i: usize = 0;
    while i < n
        invariant
            n == s.methods@.len(),
            0 <= i <= n,
            forall|a: int| 0 <= a < i ==> method_wf(#[trigger] s.methods@[a], types@),
        decreases n - i,
    {
        let m = &s.methods[i];
        if !check_ascii(m.full_name.as_slice()) {
            return false;
        }
        if !(m.request_ty < types.len() && (match types[m.request_ty] {
            TypeDef::Message(_) => true,
            _ => false,
        })) {
            return false;
        }
        if !(m.response_ty < types.len() && (match types[m.response_ty] {
            TypeDef::Message(_) => true,
            _ => false,
        })) {
            return false;
        }
        i += 1;
    }
    true
}

/// The stored full name of an arena entry, as a byte slice.
fn type_name_slice<'a>(t: &'a TypeDef) -> (r: &'a [u8])
    ensures
        r@ == type_full_name(*t),
{
    match t {
        TypeDef::Message(m) => m.full_name.as_slice(),
        TypeDef::Enum(e) => e.full_name.as_slice(),
    }
}

fn check_type(t: &TypeDef, types: &Vec<TypeDef>) -> (r: bool)
    ensures
        r == type_wf(*t, types@),
{
    match t {
        TypeDef::Message(m) => check_message(m, types),
        TypeDef::Enum(e) => check_enum(e),
    }
}

/// Runs every clause of the pool invariant over the built data.
fn check_wf(pool: &FileDescriptor) -> (r: bool)
    ensures
        r == pool.wf(),
{
    if pool.type_names.len() != pool.types.len() {
        return false;
    }
    let n: usize = pool.types.len();
    let mut i: usize = 0;
    while i < n
        invariant
            n == pool.types@.len() == pool.type_names@.len(),
            0 <= i <= n,
            forall|a: int|
                0 <= a < i ==> pool.type_names@[a]@ == type_full_name(#[trigger] pool.types@[a]),
            forall|a: int, b: int|
                0 <= a < b < i ==> pool.type_names@[a]@ != pool.type_names@[b]@,
        decreases n - i,
    {
        if !bytes_eq(pool.type_names[i].as_slice(), type_name_slice(&pool.types[i])) {
            return false;
        }
        let mut j: usize = 0;
        while j < i
            invariant
                n == pool.types@.len() == pool.type_names@.len(),
                0 <= j <= i < n,
                forall|a: int| 0 <= a < j ==> pool.type_names@[a]@ != pool.type_names@[i as int]@,
            decreases i - j,
        {
            if bytes_eq(pool.type_names[j].as_slice(), pool.type_names[i].as_slice()) {
                return false;
            }
            j += 1;
        }
        i += 1;
    }
    let mut i: usize = 0;
    while i < n
        invariant
            n == pool.types@.len(),
            0 <= i <= n,
            forall|a: int| 0 <= a < i ==> type_wf(#[trigger] pool.types@[a], pool.types@),
        decreases n - i,
    {
        if !check_type(&pool.types[i], &pool.types) {
            return false;
        }
        i += 1;
    }
    let ns: usize = pool.services.len();
    let mut i: usize = 0;
    while i < ns
        invariant
            ns == pool.services@.len(),
            0 <= i <= ns,
            forall|a: int| 0 <= a < i ==> service_wf(#[trigger] pool.services@[a], pool.types@),
        decreases ns - i,
    {
        if !check_service(&pool.services[i], &pool.types) {
            return false;
        }
        i += 1;
    }
    true
}


fn build_field(
    msg_full: &[u8],
    f: &FieldSchema,
    names: &Vec<Vec<u8>>,
    is_msg: &Vec<bool>,
    n_oneofs: usize,
) -> (r: Result<FieldDef, DescriptorError>)
{
    if f.name.len() == 0 || !check_ascii(f.name.as_slice()) {
        return Err(DescriptorError::InvalidName(copy_bytes(&f.name)));
    }
    if f.number == 0 {
        return Err(DescriptorError::InvalidShape(copy_bytes(&f.name)));
    }
    let json_name: Vec<u8> = match &f.json_name {
        Some(j) => {
            if !check_ascii(j.as_slice()) {
                return Err(DescriptorError::InvalidName(copy_bytes(j)));
            }
            copy_bytes(j)
        },
        None => to_json_name(f.name.as_slice()),
    };
    let kind: Kind = match &f.ty {
        SchemaType::Scalar(sk) => scalar_kind(*sk),
        SchemaType::Named(n) => {
            let id: usize = match resolve_in(names, msg_full, n.as_slice()) {
                Ok(i) => i,
                Err(e) => {
                    return Err(e);
                },
            };
            if id < is_msg.len() && is_msg[id] {
                Kind::Message(id)
            } else if id < is_msg.len() {
                Kind::Enum(id)
            } else {
                return Err(DescriptorError::TypeNotFound(copy_bytes(n)));
            }
        },
    };
    let oneof_index: Option<usize> = match f.oneof_index {
        Some(o) => {
            if o >= n_oneofs {
                return Err(DescriptorError::InvalidShape(copy_bytes(&f.name)));
            }
            Some(o)
        },
        None => None,
    };
    Ok(FieldDef {
        name: copy_bytes(&f.name),
        number: f.number,
        json_name,
        kind,
        cardinality: f.cardinality,
        oneof_index,
    })
}

/// The resolved kind of a scalar declaration.
fn scalar_kind(sk: ScalarKind) -> (r: Kind)
    ensures
        r == spec_scalar_kind(sk),
{
    match sk {
        ScalarKind::Bool => Kind::Bool,
        ScalarKind::Int32 => Kind::Int32,
        ScalarKind::Int64 => Kind::Int64,
        ScalarKind::Uint32 => Kind::Uint32,
        ScalarKind::Uint64 => Kind::Uint64,
        ScalarKind::Str => Kind::Str,
        ScalarKind::Bytes => Kind::Bytes,
    }
}

pub open spec fn spec_scalar_kind(sk: ScalarKind) -> Kind {
    match sk {
        ScalarKind::Bool => Kind::Bool,
        ScalarKind::Int32 => Kind::Int32,
        ScalarKind::Int64 => Kind::Int64,
        ScalarKind::Uint32 => Kind::Uint32,
        ScalarKind::Uint64 => Kind::Uint64,
        ScalarKind::Str => Kind::Str,
        ScalarKind::Bytes => Kind::Bytes,
    }
}

fn collect_enum_name(
    ns: &[u8],
    e: &EnumSchema,
    names: &mut Vec<Vec<u8>>,
    is_msg: &mut Vec<bool>,
) -> (r: Result<(), DescriptorError>)
{
    if e.name.len() == 0 || !check_ascii(e.name.as_slice()) {
        return Err(DescriptorError::InvalidName(copy_bytes(&e.name)));
    }
    names.push(make_full_name(ns, e.name.as_slice()));
    is_msg.push(false);
    Ok(())
}

fn collect_msg_names(
    ns: &[u8],
    m: &MessageSchema,
    names: &mut Vec<Vec<u8>>,
    is_msg: &mut Vec<bool>,
) -> (r: Result<(), DescriptorError>)
    decreases *m,
{
    if m.name.len() == 0 || !check_ascii(m.name.as_slice()) {
        return Err(DescriptorError::InvalidName(copy_bytes(&m.name)));
    }
    let full: Vec<u8> = make_full_name(ns, m.name.as_slice());
    names.push(copy_bytes(&full));
    is_msg.push(true);
    let nm: usize = m.nested_messages.len();
    let mut i: usize = 0;
    while i < nm
        invariant
            nm == m.nested_messages@.len(),
            0 <= i <= nm,
        decreases nm - i,
    {
        proof {
            assert(decreases_to!(*m => m.nested_messages@[i as int]));
        }
        match collect_msg_names(full.as_slice(), &m.nested_messages[i], names, is_msg) {
            Ok(()) => {},
            Err(e) => {
                return Err(e);
            },
        }
        i += 1;
    }
    let ne: usize = m.nested_enums.len();
    let mut i: usize = 0;
    while i < ne
        invariant
            ne == m.nested_enums@.len(),
            0 <= i <= ne,
        decreases ne - i,
    {
        match collect_enum_name(full.as_slice(), &m.nested_enums[i], names, is_msg) {
            Ok(()) => {},
            Err(e) => {
                return Err(e);
            },
        }
        i += 1;
    }
    Ok(())
}

fn build_enum(ns: &[u8], e: &EnumSchema, types: &mut Vec<TypeDef>) -> (r: Result<
    (),
    DescriptorError,
>)
{
    if e.name.len() == 0 || !check_ascii(e.name.as_slice()) {
        return Err(DescriptorError::InvalidName(copy_bytes(&e.name)));
    }
    let nv: usize = e.values.len();
    let mut values: Vec<EnumValueDef> = Vec::new();
    let mut i: usize = 0;
    while i < nv
        invariant
            nv == e.values@.len(),
            0 <= i <= nv,
        decreases nv - i,
    {
        if !check_ascii(e.values[i].name.as_slice()) {
            return Err(DescriptorError::InvalidName(copy_bytes(&e.values[i].name)));
        }
        values.push(EnumValueDef {
            name: copy_bytes(&e.values[i].name),
            number: e.values[i].number,
        });
        i += 1;
    }
    types.push(TypeDef::Enum(EnumDef { full_name: make_full_name(ns, e.name.as_slice()), values }));
    Ok(())
}

fn build_msg_types(
    ns: &[u8],
    m: &MessageSchema,
    names: &Vec<Vec<u8>>,
    is_msg: &Vec<bool>,
    types: &mut Vec<TypeDef>,
) -> (r: Result<(), DescriptorError>)
    decreases *m,
{
    let full: Vec<u8> = make_full_name(ns, m.name.as_slice());
    let nf: usize = m.fields.len();
    let mut fields: Vec<FieldDef> = Vec::new();
    let mut i: usize = 0;
    while i < nf
        invariant
            nf == m.fields@.len(),
            0 <= i <= nf,
            fields@.len() == i,
        decreases nf - i,
    {
        match build_field(full.as_slice(), &m.fields[i], names, is_msg, m.oneofs.len()) {
            Ok(fd) => fields.push(fd),
            Err(e) => {
                return Err(e);
            },
        }
        i += 1;
    }
    let no: usize = m.oneofs.len();
    let mut oneofs: Vec<OneofDef> = Vec::new();
    let mut o: usize = 0;
    while o < no
        invariant
            no == m.oneofs@.len(),
            0 <= o <= no,
            nf == fields@.len() == m.fields@.len(),
        decreases no - o,
    {
        if !check_ascii(m.oneofs[o].name.as_slice()) {
            return Err(DescriptorError::InvalidName(copy_bytes(&m.oneofs[o].name)));
        }
        let mut members: Vec<u32> = Vec::new();
        let mut i: usize = 0;
        while i < nf
            invariant
                nf == fields@.len(),
                0 <= i <= nf,
            decreases nf - i,
        {
            match fields[i].oneof_index {
                Some(oi) => {
                    if oi == o {
                        members.push(fields[i].number);
                    }
                },
                None => {},
            }
            i += 1;
        }
        oneofs.push(OneofDef { name: copy_bytes(&m.oneofs[o].name), members });
        o += 1;
    }
    types.push(TypeDef::Message(MessageDef {
        full_name: copy_bytes(&full),
        fields,
        oneofs,
        is_map_entry: m.is_map_entry,
    }));
    let nm: usize = m.nested_messages.len();
    let mut i: usize = 0;
    while i < nm
        invariant
            nm == m.nested_messages@.len(),
            0 <= i <= nm,
        decreases nm - i,
    {
        proof {
            assert(decreases_to!(*m => m.nested_messages@[i as int]));
        }
        match build_msg_types(full.as_slice(), &m.nested_messages[i], names, is_msg, types) {
            Ok(()) => {},
            Err(e) => {
                return Err(e);
            },
        }
        i += 1;
    }
    let ne: usize = m.nested_enums.len();
    let mut i: usize = 0;
    while i < ne
        invariant
            ne == m.nested_enums@.len(),
            0 <= i <= ne,
        decreases ne - i,
    {
        match build_enum(full.as_slice(), &m.nested_enums[i], types) {
            Ok(()) => {},
            Err(e) => {
                return Err(e);
            },
        }
        i += 1;
    }
    Ok(())
}


/// One built method corresponds to its declaration: the full name is the
/// service's full name joined with the declared name, the request and
/// response identifiers are exactly what name resolution produces from the
/// service's scope, and the streaming flags are copied.
pub open spec fn method_built(
    names: Seq<Seq<u8>>,
    svc_full: Seq<u8>,
    msch: MethodSchema,
    m: MethodInner,
) -> bool {
    &&& m.full_name@ == full_name_of(svc_full, msch.name@)
    &&& spec_resolve(names, svc_full, msch.input_type@) == Some(m.request_ty as int)
    &&& spec_resolve(names, svc_full, msch.output_type@) == Some(m.response_ty as int)
    &&& m.client_streaming == msch.client_streaming
    &&& m.server_streaming == msch.server_streaming
}

/// One built service corresponds to its declaration: the full name is the
/// package joined with the declared name, and each method in declaration
/// order corresponds to its schema.
pub open spec fn service_built(
    names: Seq<Seq<u8>>,
    package: Seq<u8>,
    ssch: ServiceSchema,
    sv: ServiceInner,
) -> bool {
    &&& sv.full_name@ == full_name_of(package, ssch.name@)
    &&& sv.methods@.len() == ssch.methods@.len()
    &&& forall|i: int|
        0 <= i < sv.methods@.len() ==> method_built(
            names,
            full_name_of(package, ssch.name@),
            ssch.methods@[i],
            #[trigger] sv.methods@[i],
        )
}

/// A method declaration that can be built: a well-formed identifier and
/// two type references that resolve, from the service's scope, to message
/// types.
pub open spec fn method_schema_ok(
    names: Seq<Seq<u8>>,
    is_msg: Seq<bool>,
    svc_full: Seq<u8>,
    msch: MethodSchema,
) -> bool {
    &&& msch.name@.len() > 0
    &&& ascii_bytes(msch.name@)
    &&& spec_resolve(names, svc_full, msch.input_type@) matches Some(i) && 0 <= i
        < is_msg.len() && is_msg[i]
    &&& spec_resolve(names, svc_full, msch.output_type@) matches Some(o) && 0 <= o
        < is_msg.len() && is_msg[o]
}

/// A service declaration that can be built: a well-formed identifier and
/// every method buildable.  Building succeeds if and only if this holds.
pub open spec fn service_schema_ok(
    names: Seq<Seq<u8>>,
    is_msg: Seq<bool>,
    package: Seq<u8>,
    s: ServiceSchema,
) -> bool {
    &&& s.name@.len() > 0
    &&& ascii_bytes(s.name@)
    &&& forall|i: int|
        0 <= i < s.methods@.len() ==> method_schema_ok(
            names,
            is_msg,
            full_name_of(package, s.name@),
            #[trigger] s.methods@[i],
        )
}

/// All declared services across the files, in order, each with its file's
/// package.
pub open spec fn flat_services(files: Seq<FileSchema>) -> Seq<(Seq<u8>, ServiceSchema)>
    decreases files.len(),
{
    if files.len() == 0 {
        Seq::empty()
    } else {
        Seq::new(
            files[0].services@.len(),
            |i: int| (files[0].package@, files[0].services@[i]),
        ) + flat_services(files.drop_first())
    }
}

proof fn lemma_flat_services_push(files: Seq<FileSchema>, x: FileSchema)
    ensures
        flat_services(files.push(x)) == flat_services(files) + Seq::new(
            x.services@.len(),
            |i: int| (x.package@, x.services@[i]),
        ),
    decreases files.len(),
{
    let piece = Seq::new(x.services@.len(), |i: int| (x.package@, x.services@[i]));
    if files.len() == 0 {
        assert(files.push(x)[0] == x);
        assert(files.push(x).drop_first() =~= Seq::<FileSchema>::empty());
        assert(flat_services(Seq::<FileSchema>::empty())
            == Seq::<(Seq<u8>, ServiceSchema)>::empty());
        assert(Seq::new(
            files.push(x)[0].services@.len(),
            |i: int| (files.push(x)[0].package@, files.push(x)[0].services@[i]),
        ) =~= piece);
        assert(piece + Seq::<(Seq<u8>, ServiceSchema)>::empty() =~= piece);
        assert(Seq::<(Seq<u8>, ServiceSchema)>::empty() + piece =~= piece);
    } else {
        assert(files.push(x)[0] == files[0]);
        assert(files.push(x).drop_first() =~= files.drop_first().push(x));
        lemma_flat_services_push(files.drop_first(), x);
        assert((Seq::new(
            files[0].services@.len(),
            |i: int| (files[0].package@, files[0].services@[i]),
        ) + flat_services(files.drop_first())) + piece =~= Seq::new(
            files[0].services@.len(),
            |i: int| (files[0].package@, files[0].services@[i]),
        ) + (flat_services(files.drop_first()) + piece));
    }
}

fn build_service(
    package: &[u8],
    s: &ServiceSchema,
    names: &Vec<Vec<u8>>,
    is_msg: &Vec<bool>,
) -> (r: Result<ServiceInner, DescriptorError>)
    ensures
        r matches Ok(sv) ==> service_built(views_of(names@), package@, *s, sv),
        r is Ok <==> service_schema_ok(views_of(names@), is_msg@, package@, *s),
{
    if s.name.len() == 0 || !check_ascii(s.name.as_slice()) {
        return Err(DescriptorError::InvalidName(copy_bytes(&s.name)));
    }
    let full: Vec<u8> = make_full_name(package, s.name.as_slice());
    let nm: usize = s.methods.len();
    let mut methods: Vec<MethodInner> = Vec::new();
    let mut i: usize = 0;
    while i < nm
        invariant
            nm == s.methods@.len(),
            0 <= i <= nm,
            methods@.len() == i,
            full@ == full_name_of(package@, s.name@),
            forall|j: int|
                0 <= j < i ==> method_built(
                    views_of(names@),
                    full_name_of(package@, s.name@),
                    s.methods@[j],
                    #[trigger] methods@[j],
                ),
            forall|j: int|
                0 <= j < i ==> method_schema_ok(
                    views_of(names@),
                    is_msg@,
                    full_name_of(package@, s.name@),
                    #[trigger] s.methods@[j],
                ),
            s.name@.len() > 0 && ascii_bytes(s.name@),
        decreases nm - i,
    {
        let msch = &s.methods[i];
        if msch.name.len() == 0 || !check_ascii(msch.name.as_slice()) {
            proof {
                assert(!method_schema_ok(
                    views_of(names@),
                    is_msg@,
                    full_name_of(package@, s.name@),
                    s.methods@[i as int],
                ));
            }
            return Err(DescriptorError::InvalidName(copy_bytes(&msch.name)));
        }
        let request_ty: usize = match resolve_in(names, full.as_slice(), msch.input_type.as_slice()) {
            Ok(id) => id,
            Err(e) => {
                proof {
                    assert(!method_schema_ok(
                        views_of(names@),
                        is_msg@,
                        full_name_of(package@, s.name@),
                        s.methods@[i as int],
                    ));
                }
                return Err(e);
            },
        };
        let response_ty: usize = match resolve_in(
            names,
            full.as_slice(),
            msch.output_type.as_slice(),
        ) {
            Ok(id) => id,
            Err(e) => {
                proof {
                    assert(!method_schema_ok(
                        views_of(names@),
                        is_msg@,
                        full_name_of(package@, s.name@),
                        s.methods@[i as int],
                    ));
                }
                return Err(e);
            },
        };
        proof {
            assert(names@.len() == vstd::std_specs::vec::spec_vec_len(names));
            lemma_resolve_in_range(views_of(names@), full@, msch.input_type@);
            lemma_resolve_in_range(views_of(names@), full@, msch.output_type@);
            assert(spec_resolve(views_of(names@), full@, msch.input_type@) == Some(
                request_ty as int,
            ));
            assert(spec_resolve(views_of(names@), full@, msch.output_type@) == Some(
                response_ty as int,
            ));
        }
        if !(request_ty < is_msg.len() && is_msg[request_ty]) {
            proof {
                assert(!method_schema_ok(
                    views_of(names@),
                    is_msg@,
                    full_name_of(package@, s.name@),
                    s.methods@[i as int],
                ));
            }
            return Err(DescriptorError::InvalidShape(copy_bytes(&msch.input_type)));
        }
        if !(response_ty < is_msg.len() && is_msg[response_ty]) {
            proof {
                assert(!method_schema_ok(
                    views_of(names@),
                    is_msg@,
                    full_name_of(package@, s.name@),
                    s.methods@[i as int],
                ));
            }
            return Err(DescriptorError::InvalidShape(copy_bytes(&msch.output_type)));
        }
        proof {
            assert(method_schema_ok(
                views_of(names@),
                is_msg@,
                full_name_of(package@, s.name@),
                s.methods@[i as int],
            ));
        }
        let ghost prevm = methods@;
        methods.push(MethodInner {
            full_name: make_full_name(full.as_slice(), msch.name.as_slice()),
            request_ty,
            response_ty,
            client_streaming: msch.client_streaming,
            server_streaming: msch.server_streaming,
        });
        proof {
            assert forall|j: int|
                0 <= j < methods@.len() implies method_built(
                views_of(names@),
                full_name_of(package@, s.name@),
                s.methods@[j],
                #[trigger] methods@[j],
            ) by {
                if j < prevm.len() {
                    assert(methods@[j] == prevm[j]);
                } else {
                    assert(methods@[j] == methods@.last());
                    assert(methods@[j].full_name@ == full_name_of(
                        full_name_of(package@, s.name@),
                        s.methods@[j].name@,
                    ));
                    lemma_resolve_in_range(views_of(names@), full@, s.methods@[j].input_type@);
                    lemma_resolve_in_range(views_of(names@), full@, s.methods@[j].output_type@);
                }
            }
        }
        i += 1;
    }
    Ok(ServiceInner { full_name: full, methods })
}

impl FileDescriptor {
    /// Builds an immutable pool from one or more file schemas, in two
    /// passes: first every declared full name is collected, then every
    /// type reference is resolved against the complete index, so forward
    /// and cross-file references work.  Fails with a descriptor error on a
    /// duplicate full name, an unresolvable reference, a malformed name or
    /// a malformed oneof or map shape.
    pub fn new(files: &Vec<FileSchema>) -> (r: Result<FileDescriptor, DescriptorError>)
        ensures
            r matches Ok(pool) ==> pool.wf(),
            r matches Ok(pool) ==> {
                &&& pool.services@.len() == flat_services(files@).len()
                &&& forall|k: int|
                    0 <= k < pool.services@.len() ==> service_built(
                        views_of(pool.type_names@),
                        flat_services(files@)[k].0,
                        flat_services(files@)[k].1,
                        #[trigger] pool.services@[k],
                    )
            },
    {
        let nfiles: usize = files.len();
        let mut names: Vec<Vec<u8>> = Vec::new();
        let mut is_msg: Vec<bool> = Vec::new();
        let mut fi: usize = 0;
        while fi < nfiles
            invariant
                nfiles == files@.len(),
                0 <= fi <= nfiles,
            decreases nfiles - fi,
        {
            let file = &files[fi];
            if !check_ascii(file.package.as_slice()) {
                return Err(DescriptorError::InvalidName(copy_bytes(&file.package)));
            }
            let nm: usize = file.messages.len();
            let mut i: usize = 0;
            while i < nm
                invariant
                    nm == file.messages@.len(),
                    0 <= i <= nm,
                decreases nm - i,
            {
                match collect_msg_names(
                    file.package.as_slice(),
                    &file.messages[i],
                    &mut names,
                    &mut is_msg,
                ) {
                    Ok(()) => {},
                    Err(e) => {
                        return Err(e);
                    },
                }
                i += 1;
            }
            let ne: usize = file.enums.len();
            let mut i: usize = 0;
            while i < ne
                invariant
                    ne == file.enums@.len(),
                    0 <= i <= ne,
                decreases ne - i,
            {
                match collect_enum_name(
                    file.package.as_slice(),
                    &file.enums[i],
                    &mut names,
                    &mut is_msg,
                ) {
                    Ok(()) => {},
                    Err(e) => {
                        return Err(e);
                    },
                }
                i += 1;
            }
            fi += 1;
        }
        let nn: usize = names.len();
        let mut i: usize = 0;
        while i < nn
            invariant
                nn == names@.len(),
                0 <= i <= nn,
            decreases nn - i,
        {
            let mut j: usize = i + 1;
            while j < nn
                invariant
                    nn == names@.len(),
                    i < j <= nn || j == i + 1,
                    i < nn,
                decreases nn - j,
            {
                if bytes_eq(names[i].as_slice(), names[j].as_slice()) {
                    return Err(DescriptorError::DuplicateName(copy_bytes(&names[i])));
                }
                j += 1;
            }
            i += 1;
        }
        let mut types: Vec<TypeDef> = Vec::new();
        let mut fi: usize = 0;
        while fi < nfiles
            invariant
                nfiles == files@.len(),
                0 <= fi <= nfiles,
            decreases nfiles - fi,
        {
            let file = &files[fi];
            let nm: usize = file.messages.len();
            let mut i: usize = 0;
            while i < nm
                invariant
                    nm == file.messages@.len(),
                    0 <= i <= nm,
                decreases nm - i,
            {
                match build_msg_types(
                    file.package.as_slice(),
                    &file.messages[i],
                    &names,
                    &is_msg,
                    &mut types,
                ) {
                    Ok(()) => {},
                    Err(e) => {
                        return Err(e);
                    },
                }
                i += 1;
            }
            let ne: usize = file.enums.len();
            let mut i: usize = 0;
            while i < ne
                invariant
                    ne == file.enums@.len(),
                    0 <= i <= ne,
                decreases ne - i,
            {
                match build_enum(file.package.as_slice(), &file.enums[i], &mut types) {
                    Ok(()) => {},
                    Err(e) => {
                        return Err(e);
                    },
                }
                i += 1;
            }
            fi += 1;
        }
        let mut services: Vec<ServiceInner> = Vec::new();
        let mut fi: usize = 0;
        proof {
            assert(files@.subrange(0, 0) =~= Seq::<FileSchema>::empty());
        }
        while fi < nfiles
            invariant
                nfiles == files@.len(),
                0 <= fi <= nfiles,
                services@.len() == flat_services(files@.subrange(0, fi as int)).len(),
                forall|k: int|
                    0 <= k < services@.len() ==> service_built(
                        views_of(names@),
                        flat_services(files@.subrange(0, fi as int))[k].0,
                        flat_services(files@.subrange(0, fi as int))[k].1,
                        #[trigger] services@[k],
                    ),
            decreases nfiles - fi,
        {
            let file = &files[fi];
            let ghost base = services@.len() as int;
            let ghost prefix = files@.subrange(0, fi as int);
            let nsv: usize = file.services.len();
            let mut i: usize = 0;
            while i < nsv
                invariant
                    nfiles == files@.len(),
                    0 <= fi < nfiles,
                    *file == files@[fi as int],
                    prefix == files@.subrange(0, fi as int),
                    base == flat_services(prefix).len(),
                    nsv == file.services@.len(),
                    0 <= i <= nsv,
                    services@.len() == base + i,
                    forall|k: int|
                        0 <= k < base ==> service_built(
                            views_of(names@),
                            flat_services(prefix)[k].0,
                            flat_services(prefix)[k].1,
                            #[trigger] services@[k],
                        ),
                    forall|j: int|
                        0 <= j < i ==> service_built(
                            views_of(names@),
                            file.package@,
                            file.services@[j],
                            #[trigger] services@[base + j],
                        ),
                decreases nsv - i,
            {
                match build_service(file.package.as_slice(), &file.services[i], &names, &is_msg) {
                    Ok(sv) => services.push(sv),
                    Err(e) => {
                        return Err(e);
                    },
                }
                i += 1;
            }
            proof {
                assert(files@.subrange(0, fi + 1) =~= prefix.push(files@[fi as int]));
                lemma_flat_services_push(prefix, files@[fi as int]);
                let piece = Seq::new(
                    files@[fi as int].services@.len(),
                    |j: int| (files@[fi as int].package@, files@[fi as int].services@[j]),
                );
                assert(flat_services(files@.subrange(0, fi + 1)) == flat_services(prefix)
                    + piece);
                assert forall|k: int|
                    0 <= k < services@.len() implies service_built(
                    views_of(names@),
                    flat_services(files@.subrange(0, fi + 1))[k].0,
                    flat_services(files@.subrange(0, fi + 1))[k].1,
                    #[trigger] services@[k],
                ) by {
                    if k < base {
                        assert(flat_services(files@.subrange(0, fi + 1))[k] == flat_services(
                            prefix,
                        )[k]);
                    } else {
                        assert(flat_services(files@.subrange(0, fi + 1))[k] == piece[k - base]);
                        assert(piece[k - base] == (
                            files@[fi as int].package@,
                            files@[fi as int].services@[k - base],
                        ));
                        assert(services@[k] == services@[base + (k - base)]);
                    }
                }
            }
            fi += 1;
        }
        proof {
            assert(files@.subrange(0, nfiles as int) =~= files@);
        }
        let pool = FileDescriptor { type_names: names, types, services };
        if check_wf(&pool) {
            Ok(pool)
        } else {
            Err(DescriptorError::InvalidShape(Vec::new()))
        }
    }
}

} // verus!
