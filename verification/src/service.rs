//! Descriptor handles: cheap, copyable `(pool reference, index)` pairs.
//!
//! A handle addresses one entity of an immutable pool; every accessor is a
//! pure lookup into precomputed data.  Constructing a handle with an
//! out-of-range index is a contract violation, stated as a precondition.

use vstd::prelude::*;
use vstd::pervasive::unreached;
use vstd::slice::slice_to_vec;

use crate::names::{
    ascii_bytes, ascii_chars, lemma_parts_ascii, name_part, namespace_part, parse_name_bytes,
    parse_namespace_bytes, string_from_ascii,
};
use crate::pool::{FileDescriptor, MessageDef, MethodInner, ServiceInner, TypeDef};

verus! {

/// A protobuf service definition, addressed by its index within the pool.
#[derive(Clone, Copy)]
pub struct ServiceDescriptor<'a> {
    pub file_descriptor: &'a FileDescriptor,
    pub index: usize,
}

/// A method definition of a [`ServiceDescriptor`].
#[derive(Clone, Copy)]
pub struct MethodDescriptor<'a> {
    pub service: ServiceDescriptor<'a>,
    pub index: usize,
}

/// A message type, addressed by its type identifier within the pool.
#[derive(Clone, Copy)]
pub struct MessageDescriptor<'a> {
    pub file_descriptor: &'a FileDescriptor,
    pub ty: usize,
}

impl<'a> ServiceDescriptor<'a> {
    /// The handle addresses an existing service of a well-formed pool.
    pub open spec fn wf(self) -> bool {
        &&& self.file_descriptor.wf()
        &&& self.index < self.file_descriptor.services@.len()
    }

    /// The pooled data this handle addresses.
    pub open spec fn inner_spec(self) -> ServiceInner {
        self.file_descriptor.services@[self.index as int]
    }

    /// Creates a handle for the service at `index` within the pool.
    /// An out-of-range index is a programming error, excluded here.
    pub fn new(file_descriptor: &'a FileDescriptor, index: usize) -> (r: Self)
        requires
            file_descriptor.wf(),
            index < file_descriptor.services@.len(),
        ensures
            r.wf(),
            r.file_descriptor == file_descriptor,
            r.index == index,
    {
        ServiceDescriptor { file_descriptor, index }
    }

    /// The index of this service within the pool.
    pub fn index(&self) -> (r: usize)
        ensures
            r == self.index,
    {
        self.index
    }

    /// The pool this service is defined in.
    pub fn parent_file(&self) -> (r: &'a FileDescriptor)
        ensures
            r == self.file_descriptor,
    {
        self.file_descriptor
    }

    fn inner(&self) -> (r: &'a ServiceInner)
        requires
            self.wf(),
        ensures
            *r == self.inner_spec(),
    {
        &self.file_descriptor.services[self.index]
    }

    /// The full name of the service, e.g. `my.package.Service`.
    pub fn full_name(&self) -> (r: String)
        requires
            self.wf(),
        ensures
            r@ == ascii_chars(self.inner_spec().full_name@),
    {
        string_from_ascii(crate::names::copy_bytes(&self.inner().full_name))
    }

    /// The short name of the service, e.g. `Service`.
    pub fn name(&self) -> (r: String)
        requires
            self.wf(),
        ensures
            r@ == ascii_chars(name_part(self.inner_spec().full_name@)),
    {
        let n: &[u8] = parse_name_bytes(self.inner().full_name.as_slice());
        proof {
            lemma_parts_ascii(self.inner_spec().full_name@);
        }
        string_from_ascii(slice_to_vec(n))
    }

    /// The name of the package this service is defined in, e.g.
    /// `my.package`; empty when no package is set.
    pub fn package_name(&self) -> (r: String)
        requires
            self.wf(),
        ensures
            r@ == ascii_chars(namespace_part(self.inner_spec().full_name@)),
    {
        let n: &[u8] = parse_namespace_bytes(self.inner().full_name.as_slice());
        proof {
            lemma_parts_ascii(self.inner_spec().full_name@);
        }
        string_from_ascii(slice_to_vec(n))
    }

    /// One [`MethodDescriptor`] for each method of this service, in
    /// declaration order.
    pub fn methods(&self) -> (r: Vec<MethodDescriptor<'a>>)
        requires
            self.wf(),
        ensures
            r@.len() == self.inner_spec().methods@.len(),
            forall|i: int|
                0 <= i < r@.len() ==> (#[trigger] r@[i]).service == *self && r@[i].index == i,
    {
        let n: usize = self.inner().methods.len();
        let mut out: Vec<MethodDescriptor<'a>> = Vec::new();
        let mut i: usize = 0;
        while i < n
            invariant
                n == self.inner_spec().methods@.len(),
                0 <= i <= n,
                out@.len() == i,
                forall|j: int|
                    0 <= j < i ==> (#[trigger] out@[j]).service == *self && out@[j].index == j,
            decreases n - i,
        {
            out.push(MethodDescriptor { service: *self, index: i });
            i += 1;
        }
        out
    }

    /// A copy of this handle; handles are plain values over a shared,
    /// immutable pool.
    pub fn borrow(&self) -> (r: ServiceDescriptor<'a>)
        ensures
            r == *self,
    {
        *self
    }
}

impl<'a> MethodDescriptor<'a> {
    /// The handle addresses an existing method of a well-formed pool.
    pub open spec fn wf(self) -> bool {
        &&& self.service.wf()
        &&& self.index < self.service.inner_spec().methods@.len()
    }

    /// The pooled data this handle addresses.
    pub open spec fn inner_spec(self) -> MethodInner {
        self.service.inner_spec().methods@[self.index as int]
    }

    /// Creates a handle for the method at `index` within the service.
    /// An out-of-range index is a programming error, excluded here.
    pub fn new(service: ServiceDescriptor<'a>, index: usize) -> (r: Self)
        requires
            service.wf(),
            index < service.inner_spec().methods@.len(),
        ensures
            r.wf(),
            r.service == service,
            r.index == index,
    {
        MethodDescriptor { service, index }
    }

    /// The index of the method within the parent service.
    pub fn index(&self) -> (r: usize)
        ensures
            r == self.index,
    {
        self.index
    }

    /// The service this method is defined in.
    pub fn parent_service(&self) -> (r: &ServiceDescriptor<'a>)
        ensures
            r == self.service,
    {
        &self.service
    }

    /// The pool this method is defined in.
    pub fn parent_file(&self) -> (r: &'a FileDescriptor)
        ensures
            r == self.service.file_descriptor,
    {
        self.service.parent_file()
    }

    fn inner(&self) -> (r: &'a MethodInner)
        requires
            self.wf(),
        ensures
            *r == self.inner_spec(),
    {
        &self.service.inner().methods[self.index]
    }

    /// The full name of the method, e.g. `my.package.Service.my_method`.
    pub fn full_name(&self) -> (r: String)
        requires
            self.wf(),
        ensures
            r@ == ascii_chars(self.inner_spec().full_name@),
    {
        string_from_ascii(crate::names::copy_bytes(&self.inner().full_name))
    }

    /// The short name of the method, e.g. `my_method`.
    pub fn name(&self) -> (r: String)
        requires
            self.wf(),
        ensures
            r@ == ascii_chars(name_part(self.inner_spec().full_name@)),
    {
        let n: &[u8] = parse_name_bytes(self.inner().full_name.as_slice());
        proof {
            lemma_parts_ascii(self.inner_spec().full_name@);
        }
        string_from_ascii(slice_to_vec(n))
    }

    /// The message descriptor for the input type of this method.
    pub fn input(&self) -> (r: MessageDescriptor<'a>)
        requires
            self.wf(),
        ensures
            r.wf(),
            r.file_descriptor == self.service.file_descriptor,
            r.ty == self.inner_spec().request_ty,
    {
        MessageDescriptor { file_descriptor: self.parent_file(), ty: self.inner().request_ty }
    }

    /// The message descriptor for the output type of this method.
    pub fn output(&self) -> (r: MessageDescriptor<'a>)
        requires
            self.wf(),
        ensures
            r.wf(),
            r.file_descriptor == self.service.file_descriptor,
            r.ty == self.inner_spec().response_ty,
    {
        MessageDescriptor { file_descriptor: self.parent_file(), ty: self.inner().response_ty }
    }

    /// True when the client streams multiple messages.
    pub fn is_client_streaming(&self) -> (r: bool)
        requires
            self.wf(),
        ensures
            r == self.inner_spec().client_streaming,
    {
        self.inner().client_streaming
    }

    /// True when the server streams multiple messages.
    pub fn is_server_streaming(&self) -> (r: bool)
        requires
            self.wf(),
        ensures
            r == self.inner_spec().server_streaming,
    {
        self.inner().server_streaming
    }

    /// A copy of this handle; handles are plain values over a shared,
    /// immutable pool.
    pub fn borrow(&self) -> (r: MethodDescriptor<'a>)
        ensures
            r == *self,
    {
        *self
    }
}

impl<'a> MessageDescriptor<'a> {
    /// The handle addresses an existing message type of a well-formed pool.
    pub open spec fn wf(self) -> bool {
        &&& self.file_descriptor.wf()
        &&& self.ty < self.file_descriptor.types@.len()
        &&& self.file_descriptor.types@[self.ty as int] is Message
    }

    /// The pooled message definition this handle addresses.
    pub open spec fn def_spec(self) -> MessageDef {
        self.file_descriptor.types@[self.ty as int]->Message_0
    }

    /// Creates a handle for the message type with identifier `ty`.
    /// An identifier that does not address a message is a programming
    /// error, excluded here.
    pub fn new(file_descriptor: &'a FileDescriptor, ty: usize) -> (r: Self)
        requires
            file_descriptor.wf(),
            ty < file_descriptor.types@.len(),
            file_descriptor.types@[ty as int] is Message,
        ensures
            r.wf(),
            r.file_descriptor == file_descriptor,
            r.ty == ty,
    {
        MessageDescriptor { file_descriptor, ty }
    }

    /// The type identifier of this message within the pool.
    pub fn type_id(&self) -> (r: usize)
        ensures
            r == self.ty,
    {
        self.ty
    }

    /// The pool this message type is defined in.
    pub fn parent_file(&self) -> (r: &'a FileDescriptor)
        ensures
            r == self.file_descriptor,
    {
        self.file_descriptor
    }

    pub(crate) fn def(&self) -> (r: &'a MessageDef)
        requires
            self.wf(),
        ensures
            *r == self.def_spec(),
    {
        match &self.file_descriptor.types[self.ty] {
            TypeDef::Message(m) => m,
            TypeDef::Enum(_) => unreached(),
        }
    }

    /// The full name of the message type, e.g. `my.package.Outer.Inner`.
    pub fn full_name(&self) -> (r: String)
        requires
            self.wf(),
        ensures
            r@ == ascii_chars(self.def_spec().full_name@),
    {
        proof {
            assert(crate::pool::message_wf(self.def_spec(), self.file_descriptor.types@));
        }
        string_from_ascii(crate::names::copy_bytes(&self.def().full_name))
    }

    /// The short name of the message type, e.g. `Inner`.
    pub fn name(&self) -> (r: String)
        requires
            self.wf(),
        ensures
            r@ == ascii_chars(name_part(self.def_spec().full_name@)),
    {
        proof {
            assert(crate::pool::message_wf(self.def_spec(), self.file_descriptor.types@));
        }
        let n: &[u8] = parse_name_bytes(self.def().full_name.as_slice());
        proof {
            lemma_parts_ascii(self.def_spec().full_name@);
        }
        string_from_ascii(slice_to_vec(n))
    }

    /// True for the synthetic two-field entry message of a map field.
    pub fn is_map_entry(&self) -> (r: bool)
        requires
            self.wf(),
        ensures
            r == self.def_spec().is_map_entry,
    {
        self.def().is_map_entry
    }

    /// The number of declared fields.
    pub fn field_count(&self) -> (r: usize)
        requires
            self.wf(),
        ensures
            r == self.def_spec().fields@.len(),
    {
        self.def().fields.len()
    }
}

impl FileDescriptor {
    /// The number of declared services in the pool.
    pub fn service_count(&self) -> (r: usize)
        ensures
            r == self.services@.len(),
    {
        self.services.len()
    }

    /// The handle for the message type with the given full name, if the
    /// pool declares one.
    pub fn get_message_by_name<'a>(&'a self, name: &[u8]) -> (r: Option<MessageDescriptor<'a>>)
        requires
            self.wf(),
        ensures
            match r {
                Some(d) => d.wf() && d.file_descriptor == self
                    && crate::pool::type_full_name(self.types@[d.ty as int]) == name@
                    && crate::pool::spec_find(
                    crate::pool::views_of(self.type_names@),
                    name@,
                ) == Some(d.ty as int),
                None => match crate::pool::spec_find(
                    crate::pool::views_of(self.type_names@),
                    name@,
                ) {
                    Some(i) => self.types@[i] is Enum,
                    None => true,
                },
            },
    {
        match crate::pool::find_name(&self.type_names, name) {
            Some(id) => {
                if id < self.types.len() {
                    match &self.types[id] {
                        TypeDef::Message(_) => {
                            proof {
                                crate::pool::lemma_find_gives_name(
                                    crate::pool::views_of(self.type_names@),
                                    name@,
                                );
                            }
                            Some(MessageDescriptor { file_descriptor: self, ty: id })
                        },
                        TypeDef::Enum(_) => None,
                    }
                } else {
                    None
                }
            },
            None => None,
        }
    }
}

} // verus!
