//! The binary wire codec: varints, tagged records, and schema-driven
//! encode and decode of dynamic messages.
//!
//! Encoding is stated exactly: the output equals a mathematical encoding
//! function over the message view, field entries in stored order followed
//! by the preserved unknown records byte-for-byte.  Decoding accepts both
//! packed and unpacked repeated scalars, stores records for undeclared
//! field numbers verbatim in the unknown side table, and resolves
//! duplicate map keys last-wins.

use vstd::prelude::*;

use crate::DecodeError;
use crate::dynamic::{
    DynamicMessage, FieldValueEntry, MapEntryValue, MapKeyValue, UnknownField, Value,
};
use crate::pool::{FieldDef, FileDescriptor, Kind, MessageDef, TypeDef};
use crate::schema::Cardinality;

verus! {

/// The little-endian base-128 varint encoding of `n`.
pub open spec fn varint(n: u64) -> Seq<u8>
    decreases n,
{
    if n < 128 {
        seq![n as u8]
    } else {
        seq![(n % 128 + 128) as u8] + varint(n / 128)
    }
}

/// The record tag for a field number and wire type.
pub open spec fn tag_of(number: u32, wt: u64) -> u64 {
    (number * 8 + wt) as u64
}

/// The two's-complement 64-bit image of a signed value.
pub open spec fn u64_from_i64(x: i64) -> u64 {
    if x >= 0 {
        x as u64
    } else {
        ((x as int) + 0x1_0000_0000_0000_0000) as u64
    }
}

/// Appends the varint encoding of `n` to `out`.
pub fn write_varint(out: &mut Vec<u8>, n: u64)
    ensures
        final(out)@ == old(out)@ + varint(n),
{
    let mut cur: u64 = n;
    proof {
        assert(out@ + Seq::<u8>::empty() =~= out@);
    }
    let ghost orig = out@;
    while cur >= 128
        invariant
            orig + varint(n) == out@ + varint(cur),
        decreases cur,
    {
        let ghost prev = out@;
        out.push((cur % 128 + 128) as u8);
        proof {
            assert(prev + varint(cur) =~= prev.push((cur % 128 + 128) as u8) + varint(
                cur / 128,
            ));
        }
        cur = cur / 128;
    }
    let ghost prev = out@;
    out.push(cur as u8);
    proof {
        assert(varint(cur) =~= seq![cur as u8]);
        assert(prev + varint(cur) =~= prev.push(cur as u8));
    }
}

/// The mathematical decoding of a varint starting at `pos`: the value (as
/// an unbounded integer) and the position just past it, or nothing when
/// the input ends first.
pub open spec fn dec_varint(s: Seq<u8>, pos: int) -> Option<(int, int)>
    decreases s.len() - pos,
{
    if pos < 0 || pos >= s.len() {
        None
    } else if s[pos] < 128 {
        Some((s[pos] as int, pos + 1))
    } else {
        match dec_varint(s, pos + 1) {
            Some((v, end)) => Some(((s[pos] - 128) + 128 * v, end)),
            None => None,
        }
    }
}

/// Reads one varint; exactly the inputs whose mathematical decoding exists
/// and fits in 64 bits succeed.
pub fn read_varint(s: &[u8], pos: usize) -> (r: Option<(u64, usize)>)
    ensures
        match dec_varint(s@, pos as int) {
            Some(p) => if p.0 <= u64::MAX {
                r matches Some(q) && q.0 == p.0 && q.1 == p.1 && pos < p.1 <= s@.len()
            } else {
                r is None
            },
            None => r is None,
        },
    decreases s@.len() - pos,
{
    if pos >= s.len() {
        return None;
    }
    let b: u8 = s[pos];
    if b < 128 {
        return Some((b as u64, pos + 1));
    }
    match read_varint(s, pos + 1) {
        None => {
            proof {
                if dec_varint(s@, pos as int) matches Some(p) && p.0 <= u64::MAX {
                    assert(dec_varint(s@, pos + 1) matches Some(q) && q.0 <= u64::MAX);
                }
            }
            None
        },
        Some((hi, end)) => {
            let low: u64 = (b - 128) as u64;
            if hi <= (u64::MAX - low) / 128 {
                proof {
                    assert(low + 128 * hi <= u64::MAX) by (nonlinear_arith)
                        requires
                            hi <= (u64::MAX - low) / 128,
                            low <= 127,
                    ;
                }
                Some((low + 128 * hi, end))
            } else {
                proof {
                    assert(low + 128 * hi > u64::MAX) by (nonlinear_arith)
                        requires
                            hi > (u64::MAX - low) / 128,
                            low <= 127,
                    ;
                }
                None
            }
        },
    }
}

/// Decoding starts over the bytes of `varint(n)` recovers `n` and stops
/// just past them, whatever follows.
pub proof fn lemma_varint_roundtrip(n: u64, s: Seq<u8>, pos: int)
    requires
        0 <= pos,
        pos + varint(n).len() <= s.len(),
        s.subrange(pos, pos + varint(n).len()) == varint(n),
    ensures
        dec_varint(s, pos) == Some((n as int, pos + varint(n).len())),
    decreases n,
{
    if n < 128 {
        assert(s[pos] == varint(n)[0]);
    } else {
        let rest = varint(n / 128);
        assert(s[pos] == varint(n)[0]);
        assert(s.subrange(pos + 1, pos + 1 + rest.len()) =~= varint(n).subrange(
            1,
            varint(n).len() as int,
        ));
        assert(varint(n).subrange(1, varint(n).len() as int) =~= rest);
        lemma_varint_roundtrip(n / 128, s, pos + 1);
        assert((s[pos] - 128) + 128 * (n / 128) == n as int) by (nonlinear_arith)
            requires
                s[pos] == n % 128 + 128,
                n >= 128,
        ;
    }
}

/// One length-delimited record: tag, payload length, payload.
pub open spec fn enc_bytes_record(number: u32, payload: Seq<u8>) -> Seq<u8> {
    varint(tag_of(number, 2)) + varint(payload.len() as u64) + payload
}

/// One varint record.
pub open spec fn enc_varint_record(number: u32, value: u64) -> Seq<u8> {
    varint(tag_of(number, 0)) + varint(value)
}

/// The record for one singular value of the given kind at the given field
/// number.
pub open spec fn enc_single(types: Seq<TypeDef>, number: u32, k: Kind, v: Value) -> Seq<u8>
    decreases v, 0int,
{
    match v {
        Value::Bool(b) => enc_varint_record(number, if b { 1u64 } else { 0u64 }),
        Value::Int32(x) => enc_varint_record(number, u64_from_i64(x as i64)),
        Value::Int64(x) => enc_varint_record(number, u64_from_i64(x)),
        Value::Uint32(x) => enc_varint_record(number, x as u64),
        Value::Uint64(x) => enc_varint_record(number, x),
        Value::EnumNumber(x) => enc_varint_record(number, u64_from_i64(x as i64)),
        Value::Str(s) => enc_bytes_record(number, s@),
        Value::Bytes(s) => enc_bytes_record(number, s@),
        Value::Message(m) => enc_bytes_record(number, enc_msg(types, m)),
        Value::List(_) => Seq::empty(),
        Value::Mapping(_) => Seq::empty(),
    }
}

/// The records for the items of a repeated field, in order, unpacked.
pub open spec fn enc_items(types: Seq<TypeDef>, number: u32, k: Kind, items: Seq<Value>) -> Seq<
    u8,
>
    decreases items, 0int,
{
    if items.len() == 0 {
        Seq::empty()
    } else {
        enc_single(types, number, k, items[0]) + enc_items(types, number, k, items.drop_first())
    }
}

/// The record for one map key, at field number 1 of the entry message.
pub open spec fn enc_key(key: MapKeyValue) -> Seq<u8> {
    match key {
        MapKeyValue::Bool(b) => enc_varint_record(1, if b { 1u64 } else { 0u64 }),
        MapKeyValue::Int32(x) => enc_varint_record(1, u64_from_i64(x as i64)),
        MapKeyValue::Int64(x) => enc_varint_record(1, u64_from_i64(x)),
        MapKeyValue::Uint32(x) => enc_varint_record(1, x as u64),
        MapKeyValue::Uint64(x) => enc_varint_record(1, x),
        MapKeyValue::Str(s) => enc_bytes_record(1, s@),
    }
}

/// The records for the entries of a map field: each entry is a
/// length-delimited record holding a key record and a value record.
pub open spec fn enc_map_entries(
    types: Seq<TypeDef>,
    number: u32,
    vk: Kind,
    entries: Seq<MapEntryValue>,
) -> Seq<u8>
    decreases entries, 1int,
{
    if entries.len() == 0 {
        Seq::empty()
    } else {
        enc_bytes_record(
            number,
            enc_key(entries[0].key) + enc_single(types, 2, vk, entries[0].value),
        ) + enc_map_entries(types, number, vk, entries.drop_first())
    }
}

/// The bytes contributed by one present field entry.
pub open spec fn enc_value(types: Seq<TypeDef>, f: FieldDef, v: Value) -> Seq<u8>
    decreases v, 1int,
{
    if crate::dynamic::is_map_field(types, f) {
        match v {
            Value::Mapping(entries) => {
                let entry_def = crate::dynamic::def_of(types, f.kind->Message_0 as int);
                enc_map_entries(types, f.number, entry_def.fields@[1].kind, entries@)
            },
            _ => Seq::empty(),
        }
    } else if f.cardinality == Cardinality::Repeated {
        match v {
            Value::List(items) => enc_items(types, f.number, f.kind, items@),
            _ => Seq::empty(),
        }
    } else {
        enc_single(types, f.number, f.kind, v)
    }
}

/// The bytes contributed by the present entries, in stored order.
pub open spec fn enc_entries(
    types: Seq<TypeDef>,
    def: MessageDef,
    entries: Seq<FieldValueEntry>,
) -> Seq<u8>
    decreases entries, 2int,
{
    if entries.len() == 0 {
        Seq::empty()
    } else {
        (match crate::dynamic::spec_find_field(def.fields@, entries[0].number) {
            Some(fi) => enc_value(types, def.fields@[fi], entries[0].value),
            None => Seq::empty(),
        }) + enc_entries(types, def, entries.drop_first())
    }
}

/// The preserved unknown records, byte-identical and in captured order.
pub open spec fn unknown_concat(unknown: Seq<UnknownField>) -> Seq<u8>
    decreases unknown,
{
    if unknown.len() == 0 {
        Seq::empty()
    } else {
        unknown[0].raw@ + unknown_concat(unknown.drop_first())
    }
}

/// The wire encoding of a dynamic message: its present fields in stored
/// order, then its unknown records verbatim.
pub open spec fn enc_msg(types: Seq<TypeDef>, m: DynamicMessage) -> Seq<u8>
    decreases m, 3int,
{
    enc_entries(types, crate::dynamic::def_of(types, m.ty as int), m.fields@) + unknown_concat(
        m.unknown@,
    )
}


proof fn lemma_concat_assoc(a: Seq<u8>, b: Seq<u8>, c: Seq<u8>)
    ensures
        (a + b) + c == a + (b + c),
{
    assert((a + b) + c =~= a + (b + c));
}

proof fn lemma_enc_items_push(types: Seq<TypeDef>, number: u32, k: Kind, s: Seq<Value>, x: Value)
    ensures
        enc_items(types, number, k, s.push(x)) == enc_items(types, number, k, s) + enc_single(
            types,
            number,
            k,
            x,
        ),
    decreases s.len(),
{
    if s.len() == 0 {
        assert(s.push(x)[0] == x);
        assert(s.push(x).drop_first() =~= Seq::<Value>::empty());
        assert(enc_items(types, number, k, Seq::<Value>::empty()) == Seq::<u8>::empty());
        assert(enc_single(types, number, k, x) + Seq::<u8>::empty() =~= enc_single(
            types,
            number,
            k,
            x,
        ));
        assert(Seq::<u8>::empty() + enc_single(types, number, k, x) =~= enc_single(
            types,
            number,
            k,
            x,
        ));
    } else {
        assert(s.push(x)[0] == s[0]);
        assert(s.push(x).drop_first() =~= s.drop_first().push(x));
        lemma_enc_items_push(types, number, k, s.drop_first(), x);
        lemma_concat_assoc(
            enc_single(types, number, k, s[0]),
            enc_items(types, number, k, s.drop_first()),
            enc_single(types, number, k, x),
        );
    }
}

proof fn lemma_enc_map_push(
    types: Seq<TypeDef>,
    number: u32,
    vk: Kind,
    s: Seq<MapEntryValue>,
    x: MapEntryValue,
)
    ensures
        enc_map_entries(types, number, vk, s.push(x)) == enc_map_entries(types, number, vk, s)
            + enc_bytes_record(number, enc_key(x.key) + enc_single(types, 2, vk, x.value)),
    decreases s.len(),
{
    let piece = enc_bytes_record(number, enc_key(x.key) + enc_single(types, 2, vk, x.value));
    if s.len() == 0 {
        assert(s.push(x)[0] == x);
        assert(s.push(x).drop_first() =~= Seq::<MapEntryValue>::empty());
        assert(enc_map_entries(types, number, vk, Seq::<MapEntryValue>::empty())
            == Seq::<u8>::empty());
        assert(piece + Seq::<u8>::empty() =~= piece);
        assert(Seq::<u8>::empty() + piece =~= piece);
    } else {
        assert(s.push(x)[0] == s[0]);
        assert(s.push(x).drop_first() =~= s.drop_first().push(x));
        lemma_enc_map_push(types, number, vk, s.drop_first(), x);
        lemma_concat_assoc(
            enc_bytes_record(
                number,
                enc_key(s[0].key) + enc_single(types, 2, vk, s[0].value),
            ),
            enc_map_entries(types, number, vk, s.drop_first()),
            piece,
        );
    }
}

proof fn lemma_enc_entries_push(
    types: Seq<TypeDef>,
    def: MessageDef,
    s: Seq<FieldValueEntry>,
    x: FieldValueEntry,
)
    ensures
        enc_entries(types, def, s.push(x)) == enc_entries(types, def, s) + (
        match crate::dynamic::spec_find_field(def.fields@, x.number) {
            Some(fi) => enc_value(types, def.fields@[fi], x.value),
            None => Seq::empty(),
        }),
    decreases s.len(),
{
    let piece = match crate::dynamic::spec_find_field(def.fields@, x.number) {
        Some(fi) => enc_value(types, def.fields@[fi], x.value),
        None => Seq::<u8>::empty(),
    };
    if s.len() == 0 {
        assert(s.push(x)[0] == x);
        assert(s.push(x).drop_first() =~= Seq::<FieldValueEntry>::empty());
        assert(enc_entries(types, def, Seq::<FieldValueEntry>::empty()) == Seq::<u8>::empty());
        assert(piece + Seq::<u8>::empty() =~= piece);
        assert(Seq::<u8>::empty() + piece =~= piece);
    } else {
        assert(s.push(x)[0] == s[0]);
        assert(s.push(x).drop_first() =~= s.drop_first().push(x));
        lemma_enc_entries_push(types, def, s.drop_first(), x);
        lemma_concat_assoc(
            match crate::dynamic::spec_find_field(def.fields@, s[0].number) {
                Some(fi) => enc_value(types, def.fields@[fi], s[0].value),
                None => Seq::<u8>::empty(),
            },
            enc_entries(types, def, s.drop_first()),
            piece,
        );
    }
}

proof fn lemma_unknown_push(s: Seq<UnknownField>, x: UnknownField)
    ensures
        unknown_concat(s.push(x)) == unknown_concat(s) + x.raw@,
    decreases s.len(),
{
    if s.len() == 0 {
        assert(s.push(x)[0] == x);
        assert(s.push(x).drop_first() =~= Seq::<UnknownField>::empty());
        assert(unknown_concat(Seq::<UnknownField>::empty()) == Seq::<u8>::empty());
        assert(x.raw@ + Seq::<u8>::empty() =~= x.raw@);
        assert(Seq::<u8>::empty() + x.raw@ =~= x.raw@);
    } else {
        assert(s.push(x)[0] == s[0]);
        assert(s.push(x).drop_first() =~= s.drop_first().push(x));
        lemma_unknown_push(s.drop_first(), x);
        lemma_concat_assoc(s[0].raw@, unknown_concat(s.drop_first()), x.raw@);
    }
}

/// The two's-complement image, computed without a lossy cast.
fn sign64(x: i64) -> (r: u64)
    ensures
        r == u64_from_i64(x),
{
    if x >= 0 {
        x as u64
    } else {
        let m: i64 = -(x + 1);
        u64::MAX - (m as u64)
    }
}

/// Appends one length-delimited record.
fn write_bytes_record(out: &mut Vec<u8>, number: u32, payload: &[u8])
    requires
        number >= 1,
    ensures
        final(out)@ == old(out)@ + enc_bytes_record(number, payload@),
{
    write_varint(out, (number as u64) * 8 + 2);
    write_varint(out, payload.len() as u64);
    crate::names::append_bytes(out, payload);
    proof {
        lemma_concat_assoc(
            varint(tag_of(number, 2)),
            varint(payload@.len() as u64),
            payload@,
        );
    }
}

/// Appends one varint record.
fn write_varint_record(out: &mut Vec<u8>, number: u32, value: u64)
    requires
        number >= 1,
    ensures
        final(out)@ == old(out)@ + enc_varint_record(number, value),
{
    write_varint(out, (number as u64) * 8 + 0);
    write_varint(out, value);
}

/// Appends the record for one singular value.
fn encode_single(
    pool: &FileDescriptor,
    number: u32,
    k: Kind,
    v: &Value,
    out: &mut Vec<u8>,
) -> (r: ())
    requires
        pool.wf(),
        number >= 1,
        crate::pool::kind_wf(k, pool.types@),
        crate::dynamic::single_ok(pool.types@, k, *v),
    ensures
        final(out)@ == old(out)@ + enc_single(pool.types@, number, k, *v),
    decreases *v, 1int,
{
    match v {
        Value::Bool(b) => write_varint_record(out, number, if *b { 1 } else { 0 }),
        Value::Int32(x) => write_varint_record(out, number, sign64(*x as i64)),
        Value::Int64(x) => write_varint_record(out, number, sign64(*x)),
        Value::Uint32(x) => write_varint_record(out, number, *x as u64),
        Value::Uint64(x) => write_varint_record(out, number, *x),
        Value::EnumNumber(x) => write_varint_record(out, number, sign64(*x as i64)),
        Value::Str(s) => write_bytes_record(out, number, s.as_slice()),
        Value::Bytes(s) => write_bytes_record(out, number, s.as_slice()),
        Value::Message(m) => {
            proof {
                assert(decreases_to!(*v => v->Message_0));
                assert(v->Message_0 == *m);
            }
            let inner: Vec<u8> = encode_message_bytes(pool, m);
            write_bytes_record(out, number, inner.as_slice());
        },
        Value::List(_) => {
            proof {
                assert(false);
            }
        },
        Value::Mapping(_) => {
            proof {
                assert(false);
            }
        },
    }
}

/// Appends the record for one map key.
fn encode_key(key: &MapKeyValue, out: &mut Vec<u8>)
    ensures
        final(out)@ == old(out)@ + enc_key(*key),
{
    match key {
        MapKeyValue::Bool(b) => write_varint_record(out, 1, if *b { 1 } else { 0 }),
        MapKeyValue::Int32(x) => write_varint_record(out, 1, sign64(*x as i64)),
        MapKeyValue::Int64(x) => write_varint_record(out, 1, sign64(*x)),
        MapKeyValue::Uint32(x) => write_varint_record(out, 1, *x as u64),
        MapKeyValue::Uint64(x) => write_varint_record(out, 1, *x),
        MapKeyValue::Str(s) => write_bytes_record(out, 1, s.as_slice()),
    }
}

/// Appends the bytes of one present field entry.
fn encode_value(pool: &FileDescriptor, f: &FieldDef, v: &Value, out: &mut Vec<u8>)
    requires
        pool.wf(),
        f.number >= 1,
        crate::pool::kind_wf(f.kind, pool.types@),
        crate::dynamic::value_ok(pool.types@, *f, *v),
    ensures
        final(out)@ == old(out)@ + enc_value(pool.types@, *f, *v),
    decreases *v, 2int,
{
    let ghost types = pool.types@;
    let map_field: bool = match f.kind {
        Kind::Message(id) => {
            if f.cardinality == Cardinality::Repeated {
                match &pool.types[id] {
                    TypeDef::Message(md) => md.is_map_entry,
                    TypeDef::Enum(_) => false,
                }
            } else {
                false
            }
        },
        _ => false,
    };
    if map_field {
        match v {
            Value::Mapping(entries) => {
                let id: usize = match f.kind {
                    Kind::Message(i) => i,
                    _ => 0,
                };
                let entry_def: &MessageDef = match &pool.types[id] {
                    TypeDef::Message(md) => md,
                    TypeDef::Enum(_) => vstd::pervasive::unreached(),
                };
                proof {
                    assert(crate::pool::message_wf(*entry_def, types));
                }
                let vk: Kind = entry_def.fields[1].kind;
                let n: usize = entries.len();
                let mut i: usize = 0;
                let ghost base = out@;
                proof {
                    assert(entries@.subrange(0, 0) =~= Seq::<MapEntryValue>::empty());
                    assert(base + Seq::<u8>::empty() =~= base);
                }
                while i < n
                    invariant
                        pool.wf(),
                        types == pool.types@,
                        n == entries@.len(),
                        0 <= i <= n,
                        f.number >= 1,
                        *v == Value::Mapping(*entries),
                        crate::dynamic::is_map_field(types, *f),
                        f.kind == Kind::Message(id),
                        id < types.len() && types[id as int] is Message,
                        *entry_def == crate::dynamic::def_of(types, id as int),
                        crate::pool::message_wf(*entry_def, types),
                        entry_def.fields@.len() == 2,
                        vk == entry_def.fields@[1].kind,
                        crate::pool::kind_wf(vk, types),
                        crate::dynamic::value_ok(types, *f, *v),
                        out@ == base + enc_map_entries(
                            types,
                            f.number,
                            vk,
                            entries@.subrange(0, i as int),
                        ),
                    decreases n - i,
                {
                    let e = &entries[i];
                    let mut tmp: Vec<u8> = Vec::new();
                    encode_key(&e.key, &mut tmp);
                    proof {
                        assert(decreases_to!(*v => v->Mapping_0));
                        assert(v->Mapping_0 == *entries);
                        assert(decreases_to!(*entries => entries@[i as int]));
                        assert(decreases_to!(entries@[i as int] => entries@[i as int].value));
                        assert(Seq::<u8>::empty() + enc_key(entries@[i as int].key)
                            =~= enc_key(entries@[i as int].key));
                    }
                    encode_single(pool, 2, vk, &e.value, &mut tmp);
                    write_bytes_record(out, f.number, tmp.as_slice());
                    proof {
                        let prefix = entries@.subrange(0, i as int);
                        assert(entries@.subrange(0, i + 1) =~= prefix.push(entries@[i as int]));
                        lemma_enc_map_push(types, f.number, vk, prefix, entries@[i as int]);
                        lemma_concat_assoc(
                            base,
                            enc_map_entries(types, f.number, vk, prefix),
                            enc_bytes_record(
                                f.number,
                                enc_key(entries@[i as int].key) + enc_single(
                                    types,
                                    2,
                                    vk,
                                    entries@[i as int].value,
                                ),
                            ),
                        );
                    }
                    i += 1;
                }
                proof {
                    assert(entries@.subrange(0, n as int) =~= entries@);
                }
            },
            _ => {
                proof {
                    assert(false);
                }
            },
        }
    } else if f.cardinality == Cardinality::Repeated {
        match v {
            Value::List(items) => {
                let n: usize = items.len();
                let mut i: usize = 0;
                let ghost base = out@;
                proof {
                    assert(items@.subrange(0, 0) =~= Seq::<Value>::empty());
                    assert(base + Seq::<u8>::empty() =~= base);
                }
                while i < n
                    invariant
                        pool.wf(),
                        types == pool.types@,
                        n == items@.len(),
                        0 <= i <= n,
                        f.number >= 1,
                        *v == Value::List(*items),
                        !crate::dynamic::is_map_field(types, *f),
                        f.cardinality == Cardinality::Repeated,
                        crate::pool::kind_wf(f.kind, types),
                        crate::dynamic::value_ok(types, *f, *v),
                        out@ == base + enc_items(
                            types,
                            f.number,
                            f.kind,
                            items@.subrange(0, i as int),
                        ),
                    decreases n - i,
                {
                    proof {
                        assert(decreases_to!(*v => v->List_0));
                        assert(v->List_0 == *items);
                        assert(decreases_to!(*items => items@[i as int]));
                    }
                    encode_single(pool, f.number, f.kind, &items[i], out);
                    proof {
                        let prefix = items@.subrange(0, i as int);
                        assert(items@.subrange(0, i + 1) =~= prefix.push(items@[i as int]));
                        lemma_enc_items_push(types, f.number, f.kind, prefix, items@[i as int]);
                        lemma_concat_assoc(
                            base,
                            enc_items(types, f.number, f.kind, prefix),
                            enc_single(types, f.number, f.kind, items@[i as int]),
                        );
                    }
                    i += 1;
                }
                proof {
                    assert(items@.subrange(0, n as int) =~= items@);
                }
            },
            _ => {
                proof {
                    assert(false);
                }
            },
        }
    } else {
        encode_single(pool, f.number, f.kind, v, out);
    }
}

/// Encodes a dynamic message to wire bytes: the present fields in stored
/// order, then the preserved unknown records byte-identical to what was
/// captured.
pub fn encode_message_bytes(pool: &FileDescriptor, m: &DynamicMessage) -> (r: Vec<u8>)
    requires
        pool.wf(),
        crate::dynamic::message_ok(pool.types@, *m),
    ensures
        r@ == enc_msg(pool.types@, *m),
    decreases *m, 3int,
{
    let ghost types = pool.types@;
    let def: &MessageDef = match &pool.types[m.ty] {
        TypeDef::Message(md) => md,
        TypeDef::Enum(_) => vstd::pervasive::unreached(),
    };
    let mut out: Vec<u8> = Vec::new();
    let n: usize = m.fields.len();
    let mut i: usize = 0;
    proof {
        assert(m.fields@.subrange(0, 0) =~= Seq::<FieldValueEntry>::empty());
    }
    while i < n
        invariant
            pool.wf(),
            types == pool.types@,
            n == m.fields@.len(),
            0 <= i <= n,
            m.ty < types.len() && types[m.ty as int] is Message,
            crate::dynamic::message_ok(types, *m),
            *def == crate::dynamic::def_of(types, m.ty as int),
            crate::pool::message_wf(*def, types),
            out@ == enc_entries(types, *def, m.fields@.subrange(0, i as int)),
        decreases n - i,
    {
        let e = &m.fields[i];
        match crate::dynamic::find_field_def_pub(def, e.number) {
            Some(f) => {
                proof {
                    crate::dynamic::lemma_find_field_props(def.fields@, e.number);
                    assert(crate::dynamic::entry_ok(types, *def, m.fields@[i as int]));
                    assert(decreases_to!(*m => m.fields));
                    assert(decreases_to!(m.fields => m.fields@[i as int]));
                    assert(decreases_to!(m.fields@[i as int] => m.fields@[i as int].value));
                }
                encode_value(pool, f, &e.value, &mut out);
            },
            None => {
                proof {
                    assert(crate::dynamic::entry_ok(types, *def, m.fields@[i as int]));
                    assert(false);
                }
            },
        }
        proof {
            let prefix = m.fields@.subrange(0, i as int);
            assert(m.fields@.subrange(0, i + 1) =~= prefix.push(m.fields@[i as int]));
            lemma_enc_entries_push(types, *def, prefix, m.fields@[i as int]);
        }
        i += 1;
    }
    proof {
        assert(m.fields@.subrange(0, n as int) =~= m.fields@);
    }
    let nu: usize = m.unknown.len();
    let mut i: usize = 0;
    let ghost fields_part = out@;
    proof {
        assert(m.unknown@.subrange(0, 0) =~= Seq::<UnknownField>::empty());
        assert(fields_part + Seq::<u8>::empty() =~= fields_part);
    }
    while i < nu
        invariant
            nu == m.unknown@.len(),
            0 <= i <= nu,
            out@ == fields_part + unknown_concat(m.unknown@.subrange(0, i as int)),
        decreases nu - i,
    {
        crate::names::append_bytes(&mut out, m.unknown[i].raw.as_slice());
        proof {
            let prefix = m.unknown@.subrange(0, i as int);
            assert(m.unknown@.subrange(0, i + 1) =~= prefix.push(m.unknown@[i as int]));
            lemma_unknown_push(prefix, m.unknown@[i as int]);
            lemma_concat_assoc(
                fields_part,
                unknown_concat(prefix),
                m.unknown@[i as int].raw@,
            );
        }
        i += 1;
    }
    proof {
        assert(m.unknown@.subrange(0, nu as int) =~= m.unknown@);
    }
    out
}


/// The signed 64-bit value with the same two's-complement image.
fn i64_from(v: u64) -> (r: i64)
    ensures
        u64_from_i64(r) == v,
{
    if v < 0x8000_0000_0000_0000 {
        v as i64
    } else {
        let m: u64 = u64::MAX - v;
        -(m as i64) - 1
    }
}

/// The signed 32-bit value of the low 32 bits of `v`.
fn i32_from(v: u64) -> (r: i32) {
    let low: u64 = v % 0x1_0000_0000;
    if low < 0x8000_0000 {
        low as i32
    } else {
        let m: u64 = 0xFFFF_FFFF - low;
        -(m as i32) - 1
    }
}

fn is_varint_kind(k: &Kind) -> (r: bool)
    ensures
        r == match *k {
            Kind::Bool => true,
            Kind::Int32 => true,
            Kind::Int64 => true,
            Kind::Uint32 => true,
            Kind::Uint64 => true,
            Kind::Enum(_) => true,
            _ => false,
        },
{
    match k {
        Kind::Bool => true,
        Kind::Int32 => true,
        Kind::Int64 => true,
        Kind::Uint32 => true,
        Kind::Uint64 => true,
        Kind::Enum(_) => true,
        _ => false,
    }
}

/// The value of one decoded varint, shaped by the field's kind.
fn value_from_varint(k: &Kind, v: u64) -> (r: Value)
    requires
        match *k {
            Kind::Bool => true,
            Kind::Int32 => true,
            Kind::Int64 => true,
            Kind::Uint32 => true,
            Kind::Uint64 => true,
            Kind::Enum(_) => true,
            _ => false,
        },
{
    match k {
        Kind::Bool => Value::Bool(v != 0),
        Kind::Int32 => Value::Int32(i32_from(v)),
        Kind::Int64 => Value::Int64(i64_from(v)),
        Kind::Uint32 => Value::Uint32((v % 0x1_0000_0000) as u32),
        Kind::Uint64 => Value::Uint64(v),
        Kind::Enum(_) => Value::EnumNumber(i32_from(v)),
        _ => vstd::pervasive::unreached(),
    }
}

/// Where one record's payload ends, by wire type: just past a varint, a
/// fixed-width value, or a length-delimited span; nothing for the group
/// wire types or truncated input.
pub open spec fn spec_record_end(data: Seq<u8>, pos: int, wt: u64) -> Option<int> {
    if wt == 0 {
        match dec_varint(data, pos) {
            Some(p) => if p.0 <= u64::MAX {
                Some(p.1)
            } else {
                None
            },
            None => None,
        }
    } else if wt == 1 {
        if pos + 8 <= data.len() {
            Some(pos + 8)
        } else {
            None
        }
    } else if wt == 5 {
        if pos + 4 <= data.len() {
            Some(pos + 4)
        } else {
            None
        }
    } else if wt == 2 {
        match dec_varint(data, pos) {
            Some(p) => if p.0 <= u64::MAX && p.0 <= data.len() - p.1 {
                Some(p.1 + p.0)
            } else {
                None
            },
            None => None,
        }
    } else {
        None
    }
}

/// Advances past one record's payload, by wire type; exactly the records
/// with a well-formed end succeed.
fn skip_record(data: &[u8], pos: usize, wt: u64) -> (r: Result<usize, DecodeError>)
    requires
        pos <= data@.len(),
    ensures
        r matches Ok(p) ==> spec_record_end(data@, pos as int, wt) == Some(p as int) && pos <= p
            <= data@.len(),
        r is Err ==> spec_record_end(data@, pos as int, wt) is None,
{
    if wt == 0 {
        match read_varint(data, pos) {
            Some((_, end)) => Ok(end),
            None => Err(DecodeError::Truncated),
        }
    } else if wt == 1 {
        if data.len() - pos >= 8 {
            Ok(pos + 8)
        } else {
            Err(DecodeError::Truncated)
        }
    } else if wt == 5 {
        if data.len() - pos >= 4 {
            Ok(pos + 4)
        } else {
            Err(DecodeError::Truncated)
        }
    } else if wt == 2 {
        match read_varint(data, pos) {
            Some((len, p2)) => {
                if len <= (data.len() - p2) as u64 {
                    Ok(p2 + (len as usize))
                } else {
                    Err(DecodeError::Truncated)
                }
            },
            None => Err(DecodeError::Truncated),
        }
    } else {
        Err(DecodeError::Unsupported(wt as u32))
    }
}

/// One whole record for an undeclared field number: the input starts with
/// a tag whose number is positive, in range, and not declared, and the
/// record's payload ends exactly at the end of the input.
pub open spec fn single_unknown_record(types: Seq<TypeDef>, ty: int, data: Seq<u8>) -> bool {
    dec_varint(data, 0) matches Some(t) && {
        &&& t.0 <= u64::MAX
        &&& 1 <= t.0 / 8 <= 0xFFFF_FFFF
        &&& crate::dynamic::spec_find_field(
            crate::dynamic::def_of(types, ty).fields@,
            (t.0 / 8) as u32,
        ) is None
        &&& spec_record_end(data, t.1, (t.0 % 8) as u64) == Some(data.len() as int)
    }
}

/// Every captured unknown record belongs to an undeclared field number and
/// holds a verbatim span of the input bytes.
pub open spec fn captured_ok(def: MessageDef, unknown: Seq<UnknownField>, data: Seq<u8>) -> bool {
    &&& forall|k: int|
        0 <= k < unknown.len() ==> crate::dynamic::spec_find_field(
            def.fields@,
            (#[trigger] unknown[k]).number,
        ) is None
    &&& forall|k: int|
        0 <= k < unknown.len() ==> exists|a: int, b: int|
            0 <= a <= b <= data.len() && (#[trigger] unknown[k]).raw@ == data.subrange(a, b)
}

/// Decodes wire bytes into a dynamic message of the type `ty`.
///
/// Records for undeclared field numbers are captured verbatim in the
/// unknown side table; repeated varint-kind fields accept both packed and
/// unpacked encodings; a duplicate map key resolves to the last value
/// decoded.  The result is always a valid message bound to `ty`; failure
/// leaves no partial message.
pub fn decode_message_bytes(pool: &FileDescriptor, ty: usize, data: &[u8]) -> (r: Result<
    DynamicMessage,
    DecodeError,
>)
    requires
        pool.wf(),
        ty < pool.types@.len(),
        pool.types@[ty as int] is Message,
    ensures
        r matches Ok(m) ==> crate::dynamic::message_ok(pool.types@, m) && m.ty == ty,
        data@.len() == 0 ==> (r matches Ok(m) && m.fields@.len() == 0 && m.unknown@.len()
            == 0),
        r matches Ok(m) ==> captured_ok(
            crate::dynamic::def_of(pool.types@, ty as int),
            m.unknown@,
            data@,
        ),
        single_unknown_record(pool.types@, ty as int, data@) ==> (r matches Ok(m)
            && m.fields@.len() == 0 && m.unknown@.len() == 1 && m.unknown@[0].raw@ == data@),
    decreases data@.len(),
{
    let ghost types = pool.types@;
    let def: &MessageDef = match &pool.types[ty] {
        TypeDef::Message(md) => md,
        TypeDef::Enum(_) => vstd::pervasive::unreached(),
    };
    proof {
        assert(crate::pool::message_wf(*def, types));
    }
    let mut m = DynamicMessage { ty, fields: Vec::new(), unknown: Vec::new() };
    let mut pos: usize = 0;
    while pos < data.len()
        invariant
            pool.wf(),
            types == pool.types@,
            ty < types.len() && types[ty as int] is Message,
            *def == crate::dynamic::def_of(types, ty as int),
            crate::pool::message_wf(*def, types),
            crate::dynamic::message_ok(types, m),
            m.ty == ty,
            pos <= data@.len(),
            data@.len() == 0 ==> m.fields@.len() == 0 && m.unknown@.len() == 0,
            captured_ok(*def, m.unknown@, data@),
            single_unknown_record(types, ty as int, data@) ==> ((pos == 0 && m.fields@.len()
                == 0 && m.unknown@.len() == 0) || (pos == data@.len() && m.fields@.len() == 0
                && m.unknown@.len() == 1 && m.unknown@[0].raw@ == data@)),
        decreases data@.len() - pos,
    {
        let start: usize = pos;
        let (tagv, p1): (u64, usize) = match read_varint(data, pos) {
            Some(p) => p,
            None => {
                return Err(DecodeError::Truncated);
            },
        };
        let number64: u64 = tagv / 8;
        let wt: u64 = tagv % 8;
        if number64 == 0 || number64 > 0xFFFF_FFFF {
            return Err(DecodeError::InvalidTag);
        }
        let number: u32 = number64 as u32;
        pos = p1;
        match crate::dynamic::find_field_def_pub(def, number) {
            None => {
                let end: usize = match skip_record(data, pos, wt) {
                    Ok(e) => e,
                    Err(e) => {
                        return Err(e);
                    },
                };
                let raw: Vec<u8> = vstd::slice::slice_to_vec(
                    vstd::slice::slice_subrange(data, start, end),
                );
                proof {
                    assert(raw@ == data@.subrange(start as int, end as int));
                }
                let ghost prev_unknown = m.unknown@;
                m.unknown.push(UnknownField { number, wire_type: wt as u8, raw });
                proof {
                    assert forall|k: int|
                        0 <= k < m.unknown@.len() implies exists|a: int, b: int|
                        0 <= a <= b <= data@.len() && (#[trigger] m.unknown@[k]).raw@
                            == data@.subrange(a, b) by {
                        if k < prev_unknown.len() {
                            assert(m.unknown@[k] == prev_unknown[k]);
                        } else {
                            assert(m.unknown@[k].raw@ == data@.subrange(
                                start as int,
                                end as int,
                            ));
                            assert(0 <= start as int <= end as int <= data@.len());
                        }
                    }
                    assert forall|k: int|
                        0 <= k < m.unknown@.len() implies crate::dynamic::spec_find_field(
                        def.fields@,
                        (#[trigger] m.unknown@[k]).number,
                    ) is None by {
                        if k < prev_unknown.len() {
                            assert(m.unknown@[k] == prev_unknown[k]);
                        }
                    }
                    assert(captured_ok(*def, m.unknown@, data@));
                }
                pos = end;
            },
            Some(f) => {
                proof {
                    crate::dynamic::lemma_find_field_props(def.fields@, number);
                    assert(crate::pool::field_wf(
                        def.fields@[
                            crate::dynamic::spec_find_field(def.fields@, number)->Some_0
                        ],
                        types,
                        def.oneofs@.len() as int,
                    ));
                }
                let map_field: bool = match f.kind {
                    Kind::Message(id) => {
                        if f.cardinality == Cardinality::Repeated {
                            match &pool.types[id] {
                                TypeDef::Message(md) => md.is_map_entry,
                                TypeDef::Enum(_) => false,
                            }
                        } else {
                            false
                        }
                    },
                    _ => false,
                };
                if map_field {
                    if wt != 2 {
                        return Err(DecodeError::WireTypeMismatch(number));
                    }
                    let (len, p2): (u64, usize) = match read_varint(data, pos) {
                        Some(p) => p,
                        None => {
                            return Err(DecodeError::Truncated);
                        },
                    };
                    if len > (data.len() - p2) as u64 {
                        return Err(DecodeError::Truncated);
                    }
                    let plen: usize = len as usize;
                    let payload: &[u8] = vstd::slice::slice_subrange(data, p2, p2 + plen);
                    let entry_ty: usize = match f.kind {
                        Kind::Message(id) => id,
                        _ => vstd::pervasive::unreached(),
                    };
                    let em: DynamicMessage = match decode_message_bytes(pool, entry_ty, payload) {
                        Ok(em) => em,
                        Err(e) => {
                            return Err(e);
                        },
                    };
                    let entry_def: &MessageDef = match &pool.types[entry_ty] {
                        TypeDef::Message(md) => md,
                        TypeDef::Enum(_) => vstd::pervasive::unreached(),
                    };
                    let key: MapKeyValue = match em.get_field(pool, 1) {
                        Some(Value::Bool(b)) => MapKeyValue::Bool(b),
                        Some(Value::Int32(x)) => MapKeyValue::Int32(x),
                        Some(Value::Int64(x)) => MapKeyValue::Int64(x),
                        Some(Value::Uint32(x)) => MapKeyValue::Uint32(x),
                        Some(Value::Uint64(x)) => MapKeyValue::Uint64(x),
                        Some(Value::Str(sv)) => MapKeyValue::Str(sv),
                        _ => {
                            return Err(DecodeError::WireTypeMismatch(number));
                        },
                    };
                    let value: Value = match em.get_field(pool, 2) {
                        Some(v) => v,
                        None => {
                            let vid: usize = match entry_def.fields[1].kind {
                                Kind::Message(id) => id,
                                _ => {
                                    return Err(DecodeError::WireTypeMismatch(number));
                                },
                            };
                            Value::Message(
                                DynamicMessage { ty: vid, fields: Vec::new(), unknown: Vec::new() },
                            )
                        },
                    };
                    let mut entries: Vec<MapEntryValue> = match m.get_field(pool, number) {
                        Some(Value::Mapping(es)) => es,
                        _ => Vec::new(),
                    };
                    let mut kept: Vec<MapEntryValue> = Vec::new();
                    loop
                        invariant
                            true,
                        decreases entries@.len(),
                    {
                        match entries.pop() {
                            Some(e) => {
                                if !crate::dynamic::keys_equal(&e.key, &key) {
                                    kept.push(e);
                                }
                            },
                            None => {
                                break;
                            },
                        }
                    }
                    kept.push(MapEntryValue { key, value });
                    match m.set_field(pool, number, Value::Mapping(kept)) {
                        Ok(()) => {},
                        Err(_) => {
                            return Err(DecodeError::WireTypeMismatch(number));
                        },
                    }
                    pos = p2 + plen;
                } else if f.cardinality == Cardinality::Repeated {
                    let mut items: Vec<Value> = match m.get_field(pool, number) {
                        Some(Value::List(items)) => items,
                        _ => Vec::new(),
                    };
                    if wt == 0 && is_varint_kind(&f.kind) {
                        let (v, p2): (u64, usize) = match read_varint(data, pos) {
                            Some(p) => p,
                            None => {
                                return Err(DecodeError::Truncated);
                            },
                        };
                        items.push(value_from_varint(&f.kind, v));
                        pos = p2;
                    } else if wt == 2 && is_varint_kind(&f.kind) {
                        let (len, p2): (u64, usize) = match read_varint(data, pos) {
                            Some(p) => p,
                            None => {
                                return Err(DecodeError::Truncated);
                            },
                        };
                        if len > (data.len() - p2) as u64 {
                            return Err(DecodeError::Truncated);
                        }
                        let end: usize = p2 + (len as usize);
                        let mut q: usize = p2;
                        while q < end
                            invariant
                                p2 <= q <= end <= data@.len(),
                                types == pool.types@,
                                !single_unknown_record(types, ty as int, data@),
                                match f.kind {
                                    Kind::Bool => true,
                                    Kind::Int32 => true,
                                    Kind::Int64 => true,
                                    Kind::Uint32 => true,
                                    Kind::Uint64 => true,
                                    Kind::Enum(_) => true,
                                    _ => false,
                                },
                            decreases end - q,
                        {
                            let (v, q2): (u64, usize) = match read_varint(data, q) {
                                Some(p) => p,
                                None => {
                                    return Err(DecodeError::Truncated);
                                },
                            };
                            if q2 > end {
                                return Err(DecodeError::Truncated);
                            }
                            items.push(value_from_varint(&f.kind, v));
                            q = q2;
                        }
                        pos = end;
                    } else if wt == 2 {
                        let (len, p2): (u64, usize) = match read_varint(data, pos) {
                            Some(p) => p,
                            None => {
                                return Err(DecodeError::Truncated);
                            },
                        };
                        if len > (data.len() - p2) as u64 {
                            return Err(DecodeError::Truncated);
                        }
                        let plen: usize = len as usize;
                        let payload: &[u8] = vstd::slice::slice_subrange(data, p2, p2 + plen);
                        match f.kind {
                            Kind::Str => items.push(
                                Value::Str(vstd::slice::slice_to_vec(payload)),
                            ),
                            Kind::Bytes => items.push(
                                Value::Bytes(vstd::slice::slice_to_vec(payload)),
                            ),
                            Kind::Message(id) => {
                                match decode_message_bytes(pool, id, payload) {
                                    Ok(sub) => items.push(Value::Message(sub)),
                                    Err(e) => {
                                        return Err(e);
                                    },
                                }
                            },
                            _ => {
                                return Err(DecodeError::WireTypeMismatch(number));
                            },
                        }
                        pos = p2 + plen;
                    } else {
                        return Err(DecodeError::WireTypeMismatch(number));
                    }
                    match m.set_field(pool, number, Value::List(items)) {
                        Ok(()) => {},
                        Err(_) => {
                            return Err(DecodeError::WireTypeMismatch(number));
                        },
                    }
                } else {
                    if is_varint_kind(&f.kind) {
                        if wt != 0 {
                            return Err(DecodeError::WireTypeMismatch(number));
                        }
                        let (v, p2): (u64, usize) = match read_varint(data, pos) {
                            Some(p) => p,
                            None => {
                                return Err(DecodeError::Truncated);
                            },
                        };
                        match m.set_field(pool, number, value_from_varint(&f.kind, v)) {
                            Ok(()) => {},
                            Err(_) => {
                                return Err(DecodeError::WireTypeMismatch(number));
                            },
                        }
                        pos = p2;
                    } else {
                        if wt != 2 {
                            return Err(DecodeError::WireTypeMismatch(number));
                        }
                        let (len, p2): (u64, usize) = match read_varint(data, pos) {
                            Some(p) => p,
                            None => {
                                return Err(DecodeError::Truncated);
                            },
                        };
                        if len > (data.len() - p2) as u64 {
                            return Err(DecodeError::Truncated);
                        }
                        let plen: usize = len as usize;
                        let payload: &[u8] = vstd::slice::slice_subrange(data, p2, p2 + plen);
                        let value: Value = match f.kind {
                            Kind::Str => Value::Str(vstd::slice::slice_to_vec(payload)),
                            Kind::Bytes => Value::Bytes(vstd::slice::slice_to_vec(payload)),
                            Kind::Message(id) => {
                                match decode_message_bytes(pool, id, payload) {
                                    Ok(sub) => Value::Message(sub),
                                    Err(e) => {
                                        return Err(e);
                                    },
                                }
                            },
                            _ => {
                                return Err(DecodeError::WireTypeMismatch(number));
                            },
                        };
                        match m.set_field(pool, number, value) {
                            Ok(()) => {},
                            Err(_) => {
                                return Err(DecodeError::WireTypeMismatch(number));
                            },
                        }
                        pos = p2 + plen;
                    }
                }
            },
        }
    }
    Ok(m)
}


/// Unknown records pass through encoding verbatim: a message with no
/// present fields encodes to exactly the captured unknown bytes, in
/// captured order.
pub proof fn lemma_unknown_bytes_verbatim(types: Seq<TypeDef>, m: DynamicMessage)
    requires
        m.fields@.len() == 0,
    ensures
        enc_msg(types, m) == unknown_concat(m.unknown@),
{
    assert(enc_entries(types, crate::dynamic::def_of(types, m.ty as int), m.fields@)
        == Seq::<u8>::empty());
    assert(Seq::<u8>::empty() + unknown_concat(m.unknown@) =~= unknown_concat(m.unknown@));
}

} // verus!
