//! The canonical JSON mapping: dynamic messages to and from UTF-8 JSON
//! text.
//!
//! Fields serialize under their JSON names; absent fields are omitted
//! unless default emission is asked for; oneof members appear under their
//! own names; 64-bit integers and map keys serialize as quoted strings;
//! byte strings serialize in base64; enum values serialize as their
//! declared name when one matches.  Encoding is stated exactly against a
//! mathematical text form over the message.

use vstd::prelude::*;

use crate::dynamic::{
    DynamicMessage, MapEntryValue, MapKeyValue, Value, def_of, has_presence,
    is_map_field, spec_find_entry,
};
use crate::pool::{EnumDef, FieldDef, FileDescriptor, Kind, MessageDef, TypeDef};
use crate::schema::Cardinality;

verus! {

/// The decimal digits of `n`.
pub open spec fn dec_u64(n: u64) -> Seq<u8>
    decreases n,
{
    if n < 10 {
        seq![(48 + n) as u8]
    } else {
        dec_u64(n / 10) + seq![(48 + n % 10) as u8]
    }
}

/// The decimal digits of `x`, with a leading minus when negative.
pub open spec fn dec_i64(x: i64) -> Seq<u8> {
    if x >= 0 {
        dec_u64(x as u64)
    } else {
        seq![45u8] + dec_u64((((-(x + 1)) as u64) + 1) as u64)
    }
}

/// One escaped character of a JSON string: quote and backslash get a
/// backslash, control bytes the `\u00XX` form, all else passes through.
pub open spec fn esc_byte(b: u8) -> Seq<u8> {
    if b == 34 {
        seq![92u8, 34u8]
    } else if b == 92 {
        seq![92u8, 92u8]
    } else if b < 32 {
        seq![92u8, 117u8, 48u8, 48u8, hex_digit((b / 16) as u8), hex_digit((b % 16) as u8)]
    } else {
        seq![b]
    }
}

pub open spec fn hex_digit(x: u8) -> u8 {
    if x < 10 {
        (48 + x) as u8
    } else {
        (87 + x) as u8
    }
}

/// The escaped body of a JSON string.
pub open spec fn esc_str(s: Seq<u8>) -> Seq<u8>
    decreases s.len(),
{
    if s.len() == 0 {
        Seq::empty()
    } else {
        esc_byte(s[0]) + esc_str(s.drop_first())
    }
}

/// A quoted, escaped JSON string.
pub open spec fn quoted(s: Seq<u8>) -> Seq<u8> {
    seq![34u8] + esc_str(s) + seq![34u8]
}

/// The base64 alphabet.
pub open spec fn b64_char(x: u8) -> u8 {
    if x < 26 {
        (65 + x) as u8
    } else if x < 52 {
        (97 + (x - 26)) as u8
    } else if x < 62 {
        (48 + (x - 52)) as u8
    } else if x == 62 {
        43u8
    } else {
        47u8
    }
}

/// The standard base64 text of a byte string, padded with `=`.
pub open spec fn b64(s: Seq<u8>) -> Seq<u8>
    decreases s.len(),
{
    if s.len() == 0 {
        Seq::empty()
    } else if s.len() == 1 {
        seq![b64_char((s[0] / 4) as u8), b64_char(((s[0] % 4) * 16) as u8), 61u8, 61u8]
    } else if s.len() == 2 {
        seq![
            b64_char((s[0] / 4) as u8),
            b64_char(((s[0] % 4) * 16 + s[1] / 16) as u8),
            b64_char(((s[1] % 16) * 4) as u8),
            61u8,
        ]
    } else {
        seq![
            b64_char((s[0] / 4) as u8),
            b64_char(((s[0] % 4) * 16 + s[1] / 16) as u8),
            b64_char(((s[1] % 16) * 4 + s[2] / 64) as u8),
            b64_char((s[2] % 64) as u8),
        ] + b64(s.skip(3))
    }
}

/// The declared name of the first enum value with the given number, if
/// any.
pub open spec fn spec_enum_name(e: EnumDef, number: i32) -> Option<Seq<u8>>
    decreases e.values@.len(),
{
    spec_enum_name_from(e.values@, number)
}

pub open spec fn spec_enum_name_from(values: Seq<crate::pool::EnumValueDef>, number: i32) -> Option<
    Seq<u8>,
>
    decreases values.len(),
{
    if values.len() == 0 {
        None
    } else if values[0].number == number {
        Some(values[0].name@)
    } else {
        spec_enum_name_from(values.drop_first(), number)
    }
}

/// The JSON text of one singular value of the given kind.
pub open spec fn json_single(types: Seq<TypeDef>, k: Kind, v: Value) -> Seq<u8>
    decreases v, 0int, 0int,
{
    match v {
        Value::Bool(b) => if b {
            seq![116u8, 114u8, 117u8, 101u8]
        } else {
            seq![102u8, 97u8, 108u8, 115u8, 101u8]
        },
        Value::Int32(x) => dec_i64(x as i64),
        Value::Uint32(x) => dec_u64(x as u64),
        Value::Int64(x) => seq![34u8] + dec_i64(x) + seq![34u8],
        Value::Uint64(x) => seq![34u8] + dec_u64(x) + seq![34u8],
        Value::Str(s) => quoted(s@),
        Value::Bytes(s) => seq![34u8] + b64(s@) + seq![34u8],
        Value::EnumNumber(x) => match k {
            Kind::Enum(id) => match types[id as int] {
                TypeDef::Enum(e) => match spec_enum_name(e, x) {
                    Some(n) => quoted(n),
                    None => dec_i64(x as i64),
                },
                _ => dec_i64(x as i64),
            },
            _ => dec_i64(x as i64),
        },
        Value::Message(m) => json_msg(types, m),
        Value::List(_) => Seq::empty(),
        Value::Mapping(_) => Seq::empty(),
    }
}

/// The string form of a map key, always quoted.
pub open spec fn json_key(key: MapKeyValue) -> Seq<u8> {
    match key {
        MapKeyValue::Bool(b) => if b {
            seq![34u8, 116u8, 114u8, 117u8, 101u8, 34u8]
        } else {
            seq![34u8, 102u8, 97u8, 108u8, 115u8, 101u8, 34u8]
        },
        MapKeyValue::Int32(x) => seq![34u8] + dec_i64(x as i64) + seq![34u8],
        MapKeyValue::Int64(x) => seq![34u8] + dec_i64(x) + seq![34u8],
        MapKeyValue::Uint32(x) => seq![34u8] + dec_u64(x as u64) + seq![34u8],
        MapKeyValue::Uint64(x) => seq![34u8] + dec_u64(x) + seq![34u8],
        MapKeyValue::Str(s) => quoted(s@),
    }
}

/// The members of a JSON object for a map field's entries.
pub open spec fn json_map_entries(
    types: Seq<TypeDef>,
    vk: Kind,
    entries: Seq<MapEntryValue>,
    first: bool,
) -> Seq<u8>
    decreases entries, 1int, 0int,
{
    if entries.len() == 0 {
        Seq::empty()
    } else {
        (if first {
            Seq::<u8>::empty()
        } else {
            seq![44u8]
        }) + json_key(entries[0].key) + seq![58u8] + json_single(types, vk, entries[0].value)
            + json_map_entries(types, vk, entries.drop_first(), false)
    }
}

/// The elements of a JSON array for a repeated field's items.
pub open spec fn json_items(types: Seq<TypeDef>, k: Kind, items: Seq<Value>, first: bool) -> Seq<
    u8,
>
    decreases items, 1int, 0int,
{
    if items.len() == 0 {
        Seq::empty()
    } else {
        (if first {
            Seq::<u8>::empty()
        } else {
            seq![44u8]
        }) + json_single(types, k, items[0]) + json_items(types, k, items.drop_first(), false)
    }
}

/// The JSON text of one present field value, cardinality included.
pub open spec fn json_value(types: Seq<TypeDef>, f: FieldDef, v: Value) -> Seq<u8>
    decreases v, 2int, 0int,
{
    if is_map_field(types, f) {
        match v {
            Value::Mapping(entries) => {
                let entry_def = def_of(types, f.kind->Message_0 as int);
                seq![123u8] + json_map_entries(
                    types,
                    entry_def.fields@[1].kind,
                    entries@,
                    true,
                ) + seq![125u8]
            },
            _ => Seq::empty(),
        }
    } else if f.cardinality == Cardinality::Repeated {
        match v {
            Value::List(items) => seq![91u8] + json_items(types, f.kind, items@, true)
                + seq![93u8],
            _ => Seq::empty(),
        }
    } else {
        json_single(types, f.kind, v)
    }
}

/// The JSON text of the default read from an absent field without
/// presence, used only when default emission is asked for.
pub open spec fn json_default(types: Seq<TypeDef>, f: FieldDef) -> Seq<u8> {
    if is_map_field(types, f) {
        seq![123u8, 125u8]
    } else if f.cardinality == Cardinality::Repeated {
        seq![91u8, 93u8]
    } else {
        match f.kind {
            Kind::Bool => seq![102u8, 97u8, 108u8, 115u8, 101u8],
            Kind::Int32 => seq![48u8],
            Kind::Uint32 => seq![48u8],
            Kind::Int64 => seq![34u8, 48u8, 34u8],
            Kind::Uint64 => seq![34u8, 48u8, 34u8],
            Kind::Str => seq![34u8, 34u8],
            Kind::Bytes => seq![34u8, 34u8],
            Kind::Enum(id) => match types[id as int] {
                TypeDef::Enum(e) => match spec_enum_name(e, 0) {
                    Some(n) => quoted(n),
                    None => seq![48u8],
                },
                _ => seq![48u8],
            },
            Kind::Message(_) => Seq::empty(),
        }
    }
}

/// The member contributed by one declared field: its value when present,
/// its default when absent without presence and default emission is on,
/// nothing otherwise.  An absent presence-tracked field never appears.
pub open spec fn json_member(
    types: Seq<TypeDef>,
    f: FieldDef,
    m: DynamicMessage,
    emit_defaults: bool,
) -> Seq<u8>
    decreases m, 2int, 0int,
{
    match spec_find_entry(m.fields@, f.number) {
        Some(i) => if 0 <= i < m.fields@.len() {
            quoted(f.json_name@) + seq![58u8] + json_value(types, f, m.fields@[i].value)
        } else {
            Seq::empty()
        },
        None => if emit_defaults && !has_presence(f) {
            quoted(f.json_name@) + seq![58u8] + json_default(types, f)
        } else {
            Seq::empty()
        },
    }
}

/// The members of the object for a message, walking the declared fields in
/// order; `started` carries whether a member was already written.
pub open spec fn json_members(
    types: Seq<TypeDef>,
    fields: Seq<FieldDef>,
    m: DynamicMessage,
    emit_defaults: bool,
    started: bool,
) -> Seq<u8>
    decreases m, 3int, fields.len(),
{
    if fields.len() == 0 {
        Seq::empty()
    } else {
        let c = json_member(types, fields[0], m, emit_defaults);
        if c.len() == 0 {
            json_members(types, fields.drop_first(), m, emit_defaults, started)
        } else {
            (if started {
                seq![44u8]
            } else {
                Seq::<u8>::empty()
            }) + c + json_members(types, fields.drop_first(), m, emit_defaults, true)
        }
    }
}

/// The JSON text of a dynamic message under the default configuration
/// (defaults omitted): an object over the declared fields.
pub open spec fn json_msg(types: Seq<TypeDef>, m: DynamicMessage) -> Seq<u8>
    decreases m, 5int, 0int,
{
    json_msg_opt(types, m, false)
}

/// The JSON text of a dynamic message, with or without default emission.
pub open spec fn json_msg_opt(types: Seq<TypeDef>, m: DynamicMessage, emit_defaults: bool) -> Seq<
    u8,
>
    decreases m, 4int, 0int,
{
    seq![123u8] + json_members(
        types,
        def_of(types, m.ty as int).fields@,
        m,
        emit_defaults,
        false,
    ) + seq![125u8]
}


fn write_u64_dec(out: &mut Vec<u8>, n: u64)
    ensures
        final(out)@ == old(out)@ + dec_u64(n),
    decreases n,
{
    if n < 10 {
        let ghost prev = out@;
        out.push(48 + (n as u8));
        proof {
            assert(prev + dec_u64(n) =~= prev.push((48 + n) as u8));
        }
    } else {
        write_u64_dec(out, n / 10);
        let ghost prev = out@;
        out.push(48 + ((n % 10) as u8));
        proof {
            assert(old(out)@ + dec_u64(n) =~= prev.push((48 + n % 10) as u8));
        }
    }
}

fn write_i64_dec(out: &mut Vec<u8>, x: i64)
    ensures
        final(out)@ == old(out)@ + dec_i64(x),
{
    if x >= 0 {
        write_u64_dec(out, x as u64);
    } else {
        out.push(45);
        let m: u64 = ((-(x + 1)) as u64) + 1;
        write_u64_dec(out, m);
        proof {
            assert(old(out)@ + dec_i64(x) =~= old(out)@.push(45u8) + dec_u64(m));
        }
    }
}

fn write_escaped(out: &mut Vec<u8>, s: &[u8])
    ensures
        final(out)@ == old(out)@ + esc_str(s@),
{
    let n: usize = s.len();
    let mut i: usize = 0;
    proof {
        assert(s@.subrange(0, n as int) =~= s@);
    }
    while i < n
        invariant
            n == s@.len(),
            0 <= i <= n,
            out@ + esc_str(s@.subrange(i as int, n as int)) == old(out)@ + esc_str(s@),
        decreases n - i,
    {
        let b: u8 = s[i];
        let ghost rem = s@.subrange(i as int, n as int);
        proof {
            assert(rem[0] == s@[i as int]);
            assert(rem.drop_first() =~= s@.subrange(i + 1, n as int));
        }
        let ghost prev = out@;
        if b == 34 {
            out.push(92);
            out.push(34);
            proof {
                assert(prev + esc_byte(s@[i as int]) =~= prev.push(92u8).push(34u8));
            }
        } else if b == 92 {
            out.push(92);
            out.push(92);
            proof {
                assert(prev + esc_byte(s@[i as int]) =~= prev.push(92u8).push(92u8));
            }
        } else if b < 32 {
            out.push(92);
            out.push(117);
            out.push(48);
            out.push(48);
            let hi: u8 = b / 16;
            let lo: u8 = b % 16;
            out.push(if hi < 10 { 48 + hi } else { 87 + hi });
            out.push(if lo < 10 { 48 + lo } else { 87 + lo });
            proof {
                assert(prev + esc_byte(s@[i as int]) =~= prev.push(92u8).push(117u8).push(
                    48u8,
                ).push(48u8).push(hex_digit((s@[i as int] / 16) as u8)).push(
                    hex_digit((s@[i as int] % 16) as u8),
                ));
            }
        } else {
            out.push(b);
            proof {
                assert(prev + esc_byte(s@[i as int]) =~= prev.push(s@[i as int]));
            }
        }
        proof {
            assert(prev + esc_str(rem) =~= (prev + esc_byte(s@[i as int])) + esc_str(
                rem.drop_first(),
            ));
        }
        i += 1;
    }
    proof {
        assert(s@.subrange(n as int, n as int) =~= Seq::<u8>::empty());
        assert(out@ + Seq::<u8>::empty() =~= out@);
    }
}

fn write_quoted(out: &mut Vec<u8>, s: &[u8])
    ensures
        final(out)@ == old(out)@ + quoted(s@),
{
    out.push(34);
    write_escaped(out, s);
    let ghost prev = out@;
    out.push(34);
    proof {
        assert(old(out)@ + quoted(s@) =~= (old(out)@.push(34u8) + esc_str(s@)).push(34u8));
    }
}

fn write_b64(out: &mut Vec<u8>, s: &[u8])
    ensures
        final(out)@ == old(out)@ + b64(s@),
{
    let n: usize = s.len();
    let mut i: usize = 0;
    proof {
        assert(s@.subrange(0, n as int) =~= s@);
    }
    while n - i >= 3
        invariant
            n == s@.len(),
            0 <= i <= n,
            out@ + b64(s@.subrange(i as int, n as int)) == old(out)@ + b64(s@),
        decreases n - i,
    {
        let a: u8 = s[i];
        let b: u8 = s[i + 1];
        let c: u8 = s[i + 2];
        let ghost rem = s@.subrange(i as int, n as int);
        proof {
            assert(rem[0] == s@[i as int]);
            assert(rem[1] == s@[i + 1]);
            assert(rem[2] == s@[i + 2]);
            assert(rem.skip(3) =~= s@.subrange(i + 3, n as int));
        }
        let ghost prev = out@;
        out.push(b64_byte(a / 4));
        out.push(b64_byte((a % 4) * 16 + b / 16));
        out.push(b64_byte((b % 16) * 4 + c / 64));
        out.push(b64_byte(c % 64));
        proof {
            assert(prev + b64(rem) =~= prev.push(b64_char((rem[0] / 4) as u8)).push(
                b64_char(((rem[0] % 4) * 16 + rem[1] / 16) as u8),
            ).push(b64_char(((rem[1] % 16) * 4 + rem[2] / 64) as u8)).push(
                b64_char((rem[2] % 64) as u8),
            ) + b64(rem.skip(3)));
        }
        i += 3;
    }
    let ghost rem = s@.subrange(i as int, n as int);
    let ghost prev = out@;
    if n - i == 1 {
        let a: u8 = s[i];
        proof {
            assert(rem[0] == s@[i as int]);
            assert(rem.len() == 1);
        }
        out.push(b64_byte(a / 4));
        out.push(b64_byte((a % 4) * 16));
        out.push(61);
        out.push(61);
        proof {
            assert(prev + b64(rem) =~= prev.push(b64_char((rem[0] / 4) as u8)).push(
                b64_char(((rem[0] % 4) * 16) as u8),
            ).push(61u8).push(61u8));
        }
    } else if n - i == 2 {
        let a: u8 = s[i];
        let b: u8 = s[i + 1];
        proof {
            assert(rem[0] == s@[i as int]);
            assert(rem[1] == s@[i + 1]);
            assert(rem.len() == 2);
        }
        out.push(b64_byte(a / 4));
        out.push(b64_byte((a % 4) * 16 + b / 16));
        out.push(b64_byte((b % 16) * 4));
        out.push(61);
        proof {
            assert(prev + b64(rem) =~= prev.push(b64_char((rem[0] / 4) as u8)).push(
                b64_char(((rem[0] % 4) * 16 + rem[1] / 16) as u8),
            ).push(b64_char(((rem[1] % 16) * 4) as u8)).push(61u8));
        }
    } else {
        proof {
            assert(rem.len() == 0);
            assert(b64(rem) == Seq::<u8>::empty());
            assert(prev + Seq::<u8>::empty() =~= prev);
        }
    }
}

fn b64_byte(x: u8) -> (r: u8)
    ensures
        r == b64_char(x),
{
    if x < 26 {
        65 + x
    } else if x < 52 {
        97 + (x - 26)
    } else if x < 62 {
        48 + (x - 52)
    } else if x == 62 {
        43
    } else {
        47
    }
}

fn find_enum_name<'a>(e: &'a EnumDef, number: i32) -> (r: Option<&'a Vec<u8>>)
    ensures
        match r {
            Some(n) => spec_enum_name(*e, number) == Some(n@),
            None => spec_enum_name(*e, number) is None,
        },
{
    let nv: usize = e.values.len();
    let mut i: usize = 0;
    while i < nv
        invariant
            nv == e.values@.len(),
            0 <= i <= nv,
            forall|j: int| 0 <= j < i ==> e.values@[j].number != number,
        decreases nv - i,
    {
        if e.values[i].number == number {
            proof {
                lemma_enum_name_at(e.values@, number, i as int);
            }
            return Some(&e.values[i].name);
        }
        i += 1;
    }
    proof {
        lemma_enum_name_none(e.values@, number);
    }
    None
}

proof fn lemma_enum_name_at(values: Seq<crate::pool::EnumValueDef>, number: i32, i: int)
    requires
        0 <= i < values.len(),
        values[i].number == number,
        forall|j: int| 0 <= j < i ==> values[j].number != number,
    ensures
        spec_enum_name_from(values, number) == Some(values[i].name@),
    decreases values.len(),
{
    if i > 0 {
        assert forall|j: int|
            0 <= j < i - 1 implies values.drop_first()[j].number != number by {
            assert(values.drop_first()[j] == values[j + 1]);
        }
        assert(values.drop_first()[i - 1] == values[i]);
        lemma_enum_name_at(values.drop_first(), number, i - 1);
    }
}

proof fn lemma_enum_name_none(values: Seq<crate::pool::EnumValueDef>, number: i32)
    requires
        forall|i: int| 0 <= i < values.len() ==> values[i].number != number,
    ensures
        spec_enum_name_from(values, number) is None,
    decreases values.len(),
{
    if values.len() > 0 {
        assert forall|j: int|
            0 <= j < values.len() - 1 implies values.drop_first()[j].number != number by {
            assert(values.drop_first()[j] == values[j + 1]);
        }
        lemma_enum_name_none(values.drop_first(), number);
    }
}


/// Appends the JSON text of one singular value.
fn write_single(pool: &FileDescriptor, k: Kind, v: &Value, out: &mut Vec<u8>)
    requires
        pool.wf(),
        crate::pool::kind_wf(k, pool.types@),
        crate::dynamic::single_ok(pool.types@, k, *v),
    ensures
        final(out)@ == old(out)@ + json_single(pool.types@, k, *v),
    decreases *v, 0int,
{
    match v {
        Value::Bool(b) => {
            let ghost prev = out@;
            if *b {
                out.push(116);
                out.push(114);
                out.push(117);
                out.push(101);
                proof {
                    assert(prev + json_single(pool.types@, k, *v) =~= prev.push(116u8).push(
                        114u8,
                    ).push(117u8).push(101u8));
                }
            } else {
                out.push(102);
                out.push(97);
                out.push(108);
                out.push(115);
                out.push(101);
                proof {
                    assert(prev + json_single(pool.types@, k, *v) =~= prev.push(102u8).push(
                        97u8,
                    ).push(108u8).push(115u8).push(101u8));
                }
            }
        },
        Value::Int32(x) => write_i64_dec(out, *x as i64),
        Value::Uint32(x) => write_u64_dec(out, *x as u64),
        Value::Int64(x) => {
            out.push(34);
            write_i64_dec(out, *x);
            let ghost prev = out@;
            out.push(34);
            proof {
                assert(old(out)@ + json_single(pool.types@, k, *v) =~= (old(out)@.push(34u8)
                    + dec_i64(*x)).push(34u8));
            }
        },
        Value::Uint64(x) => {
            out.push(34);
            write_u64_dec(out, *x);
            let ghost prev = out@;
            out.push(34);
            proof {
                assert(old(out)@ + json_single(pool.types@, k, *v) =~= (old(out)@.push(34u8)
                    + dec_u64(*x)).push(34u8));
            }
        },
        Value::Str(sv) => write_quoted(out, sv.as_slice()),
        Value::Bytes(sv) => {
            out.push(34);
            write_b64(out, sv.as_slice());
            let ghost prev = out@;
            out.push(34);
            proof {
                assert(old(out)@ + json_single(pool.types@, k, *v) =~= (old(out)@.push(34u8)
                    + b64(sv@)).push(34u8));
            }
        },
        Value::EnumNumber(x) => {
            match k {
                Kind::Enum(id) => {
                    match &pool.types[id] {
                        TypeDef::Enum(e) => {
                            match find_enum_name(e, *x) {
                                Some(n) => write_quoted(out, n.as_slice()),
                                None => write_i64_dec(out, *x as i64),
                            }
                        },
                        TypeDef::Message(_) => write_i64_dec(out, *x as i64),
                    }
                },
                _ => write_i64_dec(out, *x as i64),
            }
        },
        Value::Message(m) => {
            proof {
                assert(decreases_to!(*v => v->Message_0));
                assert(v->Message_0 == *m);
            }
            write_message(pool, m, false, out);
        },
        Value::List(_) => {
            proof {
                assert(false);
            }
        },
        Value::Mapping(_) => {
            proof {
                assert(false);
            }
        },
    }
}

fn write_key(key: &MapKeyValue, out: &mut Vec<u8>)
    ensures
        final(out)@ == old(out)@ + json_key(*key),
{
    match key {
        MapKeyValue::Bool(b) => {
            let ghost prev = out@;
            if *b {
                out.push(34);
                out.push(116);
                out.push(114);
                out.push(117);
                out.push(101);
                out.push(34);
                proof {
                    assert(prev + json_key(*key) =~= prev.push(34u8).push(116u8).push(
                        114u8,
                    ).push(117u8).push(101u8).push(34u8));
                }
            } else {
                out.push(34);
                out.push(102);
                out.push(97);
                out.push(108);
                out.push(115);
                out.push(101);
                out.push(34);
                proof {
                    assert(prev + json_key(*key) =~= prev.push(34u8).push(102u8).push(
                        97u8,
                    ).push(108u8).push(115u8).push(101u8).push(34u8));
                }
            }
        },
        MapKeyValue::Int32(x) => {
            out.push(34);
            write_i64_dec(out, *x as i64);
            out.push(34);
            proof {
                assert(old(out)@ + json_key(*key) =~= (old(out)@.push(34u8) + dec_i64(
                    *x as i64,
                )).push(34u8));
            }
        },
        MapKeyValue::Int64(x) => {
            out.push(34);
            write_i64_dec(out, *x);
            out.push(34);
            proof {
                assert(old(out)@ + json_key(*key) =~= (old(out)@.push(34u8) + dec_i64(*x)).push(
                    34u8,
                ));
            }
        },
        MapKeyValue::Uint32(x) => {
            out.push(34);
            write_u64_dec(out, *x as u64);
            out.push(34);
            proof {
                assert(old(out)@ + json_key(*key) =~= (old(out)@.push(34u8) + dec_u64(
                    *x as u64,
                )).push(34u8));
            }
        },
        MapKeyValue::Uint64(x) => {
            out.push(34);
            write_u64_dec(out, *x);
            out.push(34);
            proof {
                assert(old(out)@ + json_key(*key) =~= (old(out)@.push(34u8) + dec_u64(*x)).push(
                    34u8,
                ));
            }
        },
        MapKeyValue::Str(sv) => write_quoted(out, sv.as_slice()),
    }
}

/// Appends the JSON text of one present field value.
fn write_value(pool: &FileDescriptor, f: &FieldDef, v: &Value, out: &mut Vec<u8>)
    requires
        pool.wf(),
        crate::pool::kind_wf(f.kind, pool.types@),
        crate::dynamic::value_ok(pool.types@, *f, *v),
    ensures
        final(out)@ == old(out)@ + json_value(pool.types@, *f, *v),
    decreases *v, 1int,
{
    let ghost types = pool.types@;
    let map_field: bool = match f.kind {
        Kind::Message(id) => {
            if f.cardinality == Cardinality::Repeated {
                match &pool.types[id] {
                    TypeDef::Message(md) => md.is_map_entry,
                    TypeDef::Enum(_) => false,
                }
            } else {
                false
            }
        },
        _ => false,
    };
    if map_field {
        match v {
            Value::Mapping(entries) => {
                let id: usize = match f.kind {
                    Kind::Message(i) => i,
                    _ => 0,
                };
                let entry_def: &MessageDef = match &pool.types[id] {
                    TypeDef::Message(md) => md,
                    TypeDef::Enum(_) => vstd::pervasive::unreached(),
                };
                proof {
                    assert(crate::pool::message_wf(*entry_def, types));
                }
                let vk: Kind = entry_def.fields[1].kind;
                out.push(123);
                let ghost base = out@;
                let n: usize = entries.len();
                let mut i: usize = 0;
                let mut first: bool = true;
                proof {
                    assert(entries@.subrange(0, n as int) =~= entries@);
                }
                while i < n
                    invariant
                        pool.wf(),
                        types == pool.types@,
                        n == entries@.len(),
                        0 <= i <= n,
                        *v == Value::Mapping(*entries),
                        crate::dynamic::is_map_field(types, *f),
                        f.kind == Kind::Message(id),
                        id < types.len() && types[id as int] is Message,
                        *entry_def == def_of(types, id as int),
                        crate::pool::message_wf(*entry_def, types),
                        entry_def.fields@.len() == 2,
                        vk == entry_def.fields@[1].kind,
                        crate::pool::kind_wf(vk, types),
                        crate::dynamic::value_ok(types, *f, *v),
                        first == (i == 0),
                        out@ + json_map_entries(
                            types,
                            vk,
                            entries@.subrange(i as int, n as int),
                            i == 0,
                        ) == base + json_map_entries(types, vk, entries@, true),
                    decreases n - i,
                {
                    let e = &entries[i];
                    let ghost rem = entries@.subrange(i as int, n as int);
                    proof {
                        assert(rem[0] == entries@[i as int]);
                        assert(rem.drop_first() =~= entries@.subrange(i + 1, n as int));
                        assert(decreases_to!(*v => v->Mapping_0));
                        assert(v->Mapping_0 == *entries);
                        assert(decreases_to!(*entries => entries@[i as int]));
                        assert(decreases_to!(entries@[i as int] => entries@[i as int].value));
                    }
                    let ghost prev = out@;
                    if !first {
                        out.push(44);
                    }
                    write_key(&e.key, out);
                    out.push(58);
                    let ghost mid = out@;
                    write_single(pool, vk, &e.value, out);
                    proof {
                        if i == 0 {
                            assert(prev + json_map_entries(types, vk, rem, true) =~= ((prev
                                + json_key(rem[0].key)).push(58u8) + json_single(
                                types,
                                vk,
                                rem[0].value,
                            )) + json_map_entries(types, vk, rem.drop_first(), false));
                        } else {
                            assert(prev + json_map_entries(types, vk, rem, false) =~= ((
                            prev.push(44u8) + json_key(rem[0].key)).push(58u8) + json_single(
                                types,
                                vk,
                                rem[0].value,
                            )) + json_map_entries(types, vk, rem.drop_first(), false));
                        }
                    }
                    first = false;
                    i += 1;
                }
                let ghost prev = out@;
                out.push(125);
                proof {
                    assert(entries@.subrange(n as int, n as int)
                        =~= Seq::<MapEntryValue>::empty());
                    assert(json_map_entries(
                        types,
                        vk,
                        Seq::<MapEntryValue>::empty(),
                        n == 0,
                    ) == Seq::<u8>::empty());
                    assert(prev + Seq::<u8>::empty() =~= prev);
                    assert(old(out)@ + json_value(types, *f, *v) =~= (old(out)@.push(123u8)
                        + json_map_entries(types, vk, entries@, true)).push(125u8));
                }
            },
            _ => {
                proof {
                    assert(false);
                }
            },
        }
    } else if f.cardinality == Cardinality::Repeated {
        match v {
            Value::List(items) => {
                out.push(91);
                let ghost base = out@;
                let n: usize = items.len();
                let mut i: usize = 0;
                let mut first: bool = true;
                proof {
                    assert(items@.subrange(0, n as int) =~= items@);
                }
                while i < n
                    invariant
                        pool.wf(),
                        types == pool.types@,
                        n == items@.len(),
                        0 <= i <= n,
                        *v == Value::List(*items),
                        !crate::dynamic::is_map_field(types, *f),
                        f.cardinality == Cardinality::Repeated,
                        crate::pool::kind_wf(f.kind, types),
                        crate::dynamic::value_ok(types, *f, *v),
                        first == (i == 0),
                        out@ + json_items(
                            types,
                            f.kind,
                            items@.subrange(i as int, n as int),
                            i == 0,
                        ) == base + json_items(types, f.kind, items@, true),
                    decreases n - i,
                {
                    let ghost rem = items@.subrange(i as int, n as int);
                    proof {
                        assert(rem[0] == items@[i as int]);
                        assert(rem.drop_first() =~= items@.subrange(i + 1, n as int));
                        assert(decreases_to!(*v => v->List_0));
                        assert(v->List_0 == *items);
                        assert(decreases_to!(*items => items@[i as int]));
                    }
                    let ghost prev = out@;
                    if !first {
                        out.push(44);
                    }
                    write_single(pool, f.kind, &items[i], out);
                    proof {
                        if i == 0 {
                            assert(prev + json_items(types, f.kind, rem, true) =~= (prev
                                + json_single(types, f.kind, rem[0])) + json_items(
                                types,
                                f.kind,
                                rem.drop_first(),
                                false,
                            ));
                        } else {
                            assert(prev + json_items(types, f.kind, rem, false) =~= (prev.push(
                                44u8,
                            ) + json_single(types, f.kind, rem[0])) + json_items(
                                types,
                                f.kind,
                                rem.drop_first(),
                                false,
                            ));
                        }
                    }
                    first = false;
                    i += 1;
                }
                let ghost prev = out@;
                out.push(93);
                proof {
                    assert(items@.subrange(n as int, n as int) =~= Seq::<Value>::empty());
                    assert(json_items(types, f.kind, Seq::<Value>::empty(), n == 0)
                        == Seq::<u8>::empty());
                    assert(prev + Seq::<u8>::empty() =~= prev);
                    assert(old(out)@ + json_value(types, *f, *v) =~= (old(out)@.push(91u8)
                        + json_items(types, f.kind, items@, true)).push(93u8));
                }
            },
            _ => {
                proof {
                    assert(false);
                }
            },
        }
    } else {
        write_single(pool, f.kind, v, out);
    }
}

fn write_default(pool: &FileDescriptor, f: &FieldDef, out: &mut Vec<u8>)
    requires
        pool.wf(),
        crate::pool::kind_wf(f.kind, pool.types@),
    ensures
        final(out)@ == old(out)@ + json_default(pool.types@, *f),
{
    let ghost types = pool.types@;
    let map_field: bool = match f.kind {
        Kind::Message(id) => {
            if f.cardinality == Cardinality::Repeated {
                match &pool.types[id] {
                    TypeDef::Message(md) => md.is_map_entry,
                    TypeDef::Enum(_) => false,
                }
            } else {
                false
            }
        },
        _ => false,
    };
    let ghost prev = out@;
    if map_field {
        out.push(123);
        out.push(125);
        proof {
            assert(prev + json_default(types, *f) =~= prev.push(123u8).push(125u8));
        }
    } else if f.cardinality == Cardinality::Repeated {
        out.push(91);
        out.push(93);
        proof {
            assert(prev + json_default(types, *f) =~= prev.push(91u8).push(93u8));
        }
    } else {
        match f.kind {
            Kind::Bool => {
                out.push(102);
                out.push(97);
                out.push(108);
                out.push(115);
                out.push(101);
                proof {
                    assert(prev + json_default(types, *f) =~= prev.push(102u8).push(97u8).push(
                        108u8,
                    ).push(115u8).push(101u8));
                }
            },
            Kind::Int32 => {
                out.push(48);
                proof {
                    assert(prev + json_default(types, *f) =~= prev.push(48u8));
                }
            },
            Kind::Uint32 => {
                out.push(48);
                proof {
                    assert(prev + json_default(types, *f) =~= prev.push(48u8));
                }
            },
            Kind::Int64 => {
                out.push(34);
                out.push(48);
                out.push(34);
                proof {
                    assert(prev + json_default(types, *f) =~= prev.push(34u8).push(48u8).push(
                        34u8,
                    ));
                }
            },
            Kind::Uint64 => {
                out.push(34);
                out.push(48);
                out.push(34);
                proof {
                    assert(prev + json_default(types, *f) =~= prev.push(34u8).push(48u8).push(
                        34u8,
                    ));
                }
            },
            Kind::Str => {
                out.push(34);
                out.push(34);
                proof {
                    assert(prev + json_default(types, *f) =~= prev.push(34u8).push(34u8));
                }
            },
            Kind::Bytes => {
                out.push(34);
                out.push(34);
                proof {
                    assert(prev + json_default(types, *f) =~= prev.push(34u8).push(34u8));
                }
            },
            Kind::Enum(id) => {
                match &pool.types[id] {
                    TypeDef::Enum(e) => {
                        match find_enum_name(e, 0) {
                            Some(n) => write_quoted(out, n.as_slice()),
                            None => {
                                out.push(48);
                                proof {
                                    assert(prev + json_default(types, *f) =~= prev.push(48u8));
                                }
                            },
                        }
                    },
                    TypeDef::Message(_) => {
                        proof {
                            assert(false);
                        }
                    },
                }
            },
            Kind::Message(_) => {
                proof {
                    assert(prev + Seq::<u8>::empty() =~= prev);
                }
            },
        }
    }
}

/// Appends the JSON object text of a message.
fn write_message(pool: &FileDescriptor, m: &DynamicMessage, emit_defaults: bool, out: &mut Vec<
    u8,
>)
    requires
        pool.wf(),
        crate::dynamic::message_ok(pool.types@, *m),
    ensures
        final(out)@ == old(out)@ + json_msg_opt(pool.types@, *m, emit_defaults),
    decreases *m, 2int,
{
    let ghost types = pool.types@;
    let def: &MessageDef = match &pool.types[m.ty] {
        TypeDef::Message(md) => md,
        TypeDef::Enum(_) => vstd::pervasive::unreached(),
    };
    out.push(123);
    let ghost base = out@;
    let nf: usize = def.fields.len();
    let mut i: usize = 0;
    let mut started: bool = false;
    proof {
        assert(def.fields@.subrange(0, nf as int) =~= def.fields@);
    }
    while i < nf
        invariant
            pool.wf(),
            types == pool.types@,
            nf == def.fields@.len(),
            0 <= i <= nf,
            m.ty < types.len() && types[m.ty as int] is Message,
            crate::dynamic::message_ok(types, *m),
            *def == def_of(types, m.ty as int),
            crate::pool::message_wf(*def, types),
            out@ + json_members(
                types,
                def.fields@.subrange(i as int, nf as int),
                *m,
                emit_defaults,
                started,
            ) == base + json_members(types, def.fields@, *m, emit_defaults, false),
        decreases nf - i,
    {
        let f = &def.fields[i];
        let ghost rem = def.fields@.subrange(i as int, nf as int);
        proof {
            assert(rem[0] == def.fields@[i as int]);
            assert(rem.drop_first() =~= def.fields@.subrange(i + 1, nf as int));
            assert(crate::pool::field_wf(def.fields@[i as int], types, def.oneofs@.len() as int));
        }
        let ghost c = json_member(types, *f, *m, emit_defaults);
        match crate::dynamic::find_entry_index_pub(&m.fields, f.number) {
            Some(ei) => {
                proof {
                    assert(crate::dynamic::entry_ok(types, *def, m.fields@[ei as int]));
                    crate::dynamic::lemma_find_entry_props(m.fields@, f.number);
                    assert(m.fields@[ei as int].number == f.number);
                    crate::dynamic::lemma_find_field_props(def.fields@, f.number);
                    let fi = crate::dynamic::spec_find_field(def.fields@, f.number)->Some_0;
                    assert(def.fields@[fi].number == f.number);
                    assert(def.fields@[i as int].number == f.number);
                    if fi < i as int {
                        assert(def.fields@[fi].number != def.fields@[i as int].number);
                    } else if fi > i as int {
                        assert(def.fields@[i as int].number != def.fields@[fi].number);
                    }
                    assert(fi == i as int);
                }
                let ghost prev = out@;
                if started {
                    out.push(44);
                }
                write_quoted(out, f.json_name.as_slice());
                out.push(58);
                proof {
                    // the entry's declared field is this one: entry_ok finds
                    // the first field with this number, and fields with one
                    // number resolve to one index
                    let fi = crate::dynamic::spec_find_field(def.fields@, f.number)->Some_0;
                    assert(crate::dynamic::value_ok(types, def.fields@[fi], m.fields@[ei as int].value));
                    assert(decreases_to!(*m => m.fields));
                    assert(decreases_to!(m.fields => m.fields@[ei as int]));
                    assert(decreases_to!(m.fields@[ei as int] => m.fields@[ei as int].value));
                }
                write_value(pool, f, &m.fields[ei].value, out);
                proof {
                    assert(c.len() >= 2 + json_value(types, *f, m.fields@[ei as int].value).len());
                    if started {
                        assert(prev + json_members(types, rem, *m, emit_defaults, true) =~= ((
                        prev.push(44u8) + quoted(f.json_name@)).push(58u8) + json_value(
                            types,
                            *f,
                            m.fields@[ei as int].value,
                        )) + json_members(types, rem.drop_first(), *m, emit_defaults, true));
                    } else {
                        assert(prev + json_members(types, rem, *m, emit_defaults, false) =~= ((
                        prev + quoted(f.json_name@)).push(58u8) + json_value(
                            types,
                            *f,
                            m.fields@[ei as int].value,
                        )) + json_members(types, rem.drop_first(), *m, emit_defaults, true));
                    }
                }
                started = true;
            },
            None => {
                let presence: bool = match f.cardinality {
                    Cardinality::Optional => true,
                    Cardinality::Repeated => false,
                    Cardinality::Singular => match (f.kind, f.oneof_index) {
                        (Kind::Message(_), _) => true,
                        (_, Some(_)) => true,
                        _ => false,
                    },
                };
                proof {
                    assert(presence == has_presence(*f));
                }
                if emit_defaults && !presence {
                    let ghost prev = out@;
                    if started {
                        out.push(44);
                    }
                    write_quoted(out, f.json_name.as_slice());
                    out.push(58);
                    write_default(pool, f, out);
                    proof {
                        assert(c == quoted(f.json_name@) + seq![58u8] + json_default(
                            types,
                            *f,
                        ));
                        assert(c.len() >= 2);
                        if started {
                            assert(prev + json_members(types, rem, *m, emit_defaults, true)
                                =~= ((prev.push(44u8) + quoted(f.json_name@)).push(58u8)
                                + json_default(types, *f)) + json_members(
                                types,
                                rem.drop_first(),
                                *m,
                                emit_defaults,
                                true,
                            ));
                        } else {
                            assert(prev + json_members(types, rem, *m, emit_defaults, false)
                                =~= ((prev + quoted(f.json_name@)).push(58u8) + json_default(
                                types,
                                *f,
                            )) + json_members(types, rem.drop_first(), *m, emit_defaults, true));
                        }
                    }
                    started = true;
                } else {
                    proof {
                        assert(c.len() == 0);
                        assert(json_members(types, rem, *m, emit_defaults, started)
                            == json_members(
                            types,
                            rem.drop_first(),
                            *m,
                            emit_defaults,
                            started,
                        ));
                    }
                }
            },
        }
        i += 1;
    }
    let ghost prev = out@;
    out.push(125);
    proof {
        assert(def.fields@.subrange(nf as int, nf as int) =~= Seq::<FieldDef>::empty());
        assert(json_members(types, Seq::<FieldDef>::empty(), *m, emit_defaults, started)
            == Seq::<u8>::empty());
        assert(prev + Seq::<u8>::empty() =~= prev);
        assert(old(out)@ + json_msg_opt(types, *m, emit_defaults) =~= (old(out)@.push(123u8)
            + json_members(types, def.fields@, *m, emit_defaults, false)).push(125u8));
    }
}

/// Encodes a dynamic message as UTF-8 JSON text: an object over the
/// declared fields, each present field under its JSON name; absent fields
/// are omitted, or emitted with their defaults when `emit_defaults` is
/// set (presence-tracked fields are never emitted while absent).
pub fn json_encode(pool: &FileDescriptor, m: &DynamicMessage, emit_defaults: bool) -> (r: Vec<u8>)
    requires
        pool.wf(),
        crate::dynamic::message_ok(pool.types@, *m),
    ensures
        r@ == json_msg_opt(pool.types@, *m, emit_defaults),
        !emit_defaults ==> r@ == json_msg(pool.types@, *m),
{
    let mut out: Vec<u8> = Vec::new();
    write_message(pool, m, emit_defaults, &mut out);
    proof {
        assert(Seq::<u8>::empty() + json_msg_opt(pool.types@, *m, emit_defaults) =~= json_msg_opt(
            pool.types@,
            *m,
            emit_defaults,
        ));
    }
    out
}


/// Default omission: an absent field with presence tracking contributes no
/// member to its message's JSON text, under either configuration; a
/// present field always contributes its name and value, even when the
/// value is an empty string.
pub proof fn lemma_default_omission(
    types: Seq<TypeDef>,
    f: FieldDef,
    m: DynamicMessage,
    emit_defaults: bool,
)
    ensures
        spec_find_entry(m.fields@, f.number) is None && has_presence(f) ==> json_member(
            types,
            f,
            m,
            emit_defaults,
        ).len() == 0,
        spec_find_entry(m.fields@, f.number) matches Some(i) ==> 0 <= i < m.fields@.len()
            ==> json_member(types, f, m, emit_defaults) == quoted(f.json_name@) + seq![58u8]
            + json_value(types, f, m.fields@[i].value),
{
}


use crate::JsonError;

/// A JSON whitespace byte.
pub open spec fn is_ws(b: u8) -> bool {
    b == 32 || b == 9 || b == 10 || b == 13
}

fn skip_ws(data: &[u8], pos: usize) -> (r: usize)
    requires
        pos <= data@.len(),
    ensures
        pos <= r <= data@.len(),
        r < data@.len() ==> !is_ws(data@[r as int]),
        forall|j: int| pos <= j < r ==> is_ws(#[trigger] data@[j]),
{
    let n: usize = data.len();
    let mut i: usize = pos;
    while i < n
        invariant
            pos <= i <= n,
            n == data@.len(),
            forall|j: int| pos <= j < i ==> is_ws(#[trigger] data@[j]),
        decreases n - i,
    {
        let b: u8 = data[i];
        if b == 32 || b == 9 || b == 10 || b == 13 {
            i += 1;
        } else {
            return i;
        }
    }
    i
}

fn expect_byte(data: &[u8], pos: usize, b: u8) -> (r: Result<usize, JsonError>)
    requires
        pos <= data@.len(),
    ensures
        r matches Ok(p) ==> p == pos + 1 && p <= data@.len(),
        pos < data@.len() && data@[pos as int] == b ==> r is Ok,
        r matches Err(e) ==> e is Syntax,
{
    if pos < data.len() && data[pos] == b {
        Ok(pos + 1)
    } else {
        Err(JsonError::Syntax)
    }
}

/// Reads four hex digits as one code unit.
fn read_hex4(data: &[u8], pos: usize) -> (r: Result<u32, JsonError>)
    requires
        pos + 4 <= data@.len(),
    ensures
        r matches Ok(c) ==> c < 0x10000,
        r matches Err(e) ==> e is Syntax,
{
    let mut code: u32 = 0;
    let mut k: usize = pos;
    while k - pos < 4
        invariant
            pos <= k <= pos + 4,
            pos + 4 <= data@.len(),
            code < 0x10000,
        decreases pos + 4 - k,
    {
        let h: u8 = data[k];
        let d: u32 = if 48 <= h && h <= 57 {
            (h - 48) as u32
        } else if 97 <= h && h <= 102 {
            (h - 87) as u32
        } else if 65 <= h && h <= 70 {
            (h - 55) as u32
        } else {
            return Err(JsonError::Syntax);
        };
        code = code % 0x1000 * 16 + d;
        k += 1;
    }
    Ok(code)
}

/// Parses a JSON string starting at its opening quote, decoding escapes;
/// `\uXXXX` forms are encoded back to UTF-8.
fn parse_string(data: &[u8], pos: usize) -> (r: Result<(Vec<u8>, usize), JsonError>)
    requires
        pos <= data@.len(),
    ensures
        r matches Ok(p) ==> pos < p.1 <= data@.len(),
        r matches Err(e) ==> e is Syntax,
{
    let n: usize = data.len();
    let mut i: usize = match expect_byte(data, pos, 34) {
        Ok(p) => p,
        Err(e) => {
            return Err(e);
        },
    };
    let mut out: Vec<u8> = Vec::new();
    while i < n
        invariant
            pos < i <= n,
            n == data@.len(),
        decreases n - i,
    {
        let b: u8 = data[i];
        if b == 34 {
            return Ok((out, i + 1));
        } else if b == 92 {
            if i + 1 >= n {
                return Err(JsonError::Syntax);
            }
            let e: u8 = data[i + 1];
            if e == 34 || e == 92 || e == 47 {
                out.push(e);
                i += 2;
            } else if e == 110 {
                out.push(10);
                i += 2;
            } else if e == 116 {
                out.push(9);
                i += 2;
            } else if e == 114 {
                out.push(13);
                i += 2;
            } else if e == 98 {
                out.push(8);
                i += 2;
            } else if e == 102 {
                out.push(12);
                i += 2;
            } else if e == 117 {
                if n - i < 6 {
                    return Err(JsonError::Syntax);
                }
                let code: u32 = match read_hex4(data, i + 2) {
                    Ok(c) => c,
                    Err(err) => {
                        return Err(err);
                    },
                };
                if 0xD800 <= code && code < 0xDC00 {
                    // a high surrogate must be followed by an escaped low
                    // surrogate; the pair names one supplementary-plane
                    // character
                    if n - i < 12 {
                        return Err(JsonError::Syntax);
                    }
                    if !(data[i + 6] == 92 && data[i + 7] == 117) {
                        return Err(JsonError::Syntax);
                    }
                    let low: u32 = match read_hex4(data, i + 8) {
                        Ok(c) => c,
                        Err(err) => {
                            return Err(err);
                        },
                    };
                    if !(0xDC00 <= low && low < 0xE000) {
                        return Err(JsonError::Syntax);
                    }
                    let cp: u32 = 0x10000 + (code - 0xD800) * 0x400 + (low - 0xDC00);
                    out.push(240 + (cp / 0x40000) as u8);
                    out.push(128 + ((cp / 0x1000) % 64) as u8);
                    out.push(128 + ((cp / 64) % 64) as u8);
                    out.push(128 + (cp % 64) as u8);
                    i += 12;
                } else if 0xDC00 <= code && code < 0xE000 {
                    // a lone low surrogate is not a character
                    return Err(JsonError::Syntax);
                } else if code < 0x80 {
                    out.push(code as u8);
                    i += 6;
                } else if code < 0x800 {
                    out.push(192 + (code / 64) as u8);
                    out.push(128 + (code % 64) as u8);
                    i += 6;
                } else {
                    out.push(224 + (code / 4096) as u8);
                    out.push(128 + (code / 64 % 64) as u8);
                    out.push(128 + (code % 64) as u8);
                    i += 6;
                }
            } else {
                return Err(JsonError::Syntax);
            }
        } else {
            out.push(b);
            i += 1;
        }
    }
    Err(JsonError::Syntax)
}

/// Parses a decimal integer, optionally negative, optionally quoted.
/// Returns the value as a sign flag and magnitude.
fn parse_int(data: &[u8], pos: usize) -> (r: Result<(bool, u64, usize), JsonError>)
    requires
        pos <= data@.len(),
    ensures
        r matches Ok(p) ==> pos < p.2 <= data@.len(),
        r matches Err(e) ==> e is Syntax,
{
    let n: usize = data.len();
    let mut i: usize = pos;
    let mut quoted_form: bool = false;
    if i < n && data[i] == 34 {
        quoted_form = true;
        i += 1;
    }
    let mut neg: bool = false;
    if i < n && data[i] == 45 {
        neg = true;
        i += 1;
    }
    if !(i < n && 48 <= data[i] && data[i] <= 57) {
        return Err(JsonError::Syntax);
    }
    let mut mag: u64 = 0;
    while i < n && 48 <= data[i] && data[i] <= 57
        invariant
            pos <= i <= n,
            n == data@.len(),
        decreases n - i,
    {
        let d: u64 = (data[i] - 48) as u64;
        if mag > (u64::MAX - d) / 10 {
            return Err(JsonError::Syntax);
        }
        mag = mag * 10 + d;
        i += 1;
    }
    if quoted_form {
        match expect_byte(data, i, 34) {
            Ok(p) => i = p,
            Err(e) => {
                return Err(e);
            },
        }
    }
    if i <= pos {
        return Err(JsonError::Syntax);
    }
    Ok((neg, mag, i))
}

fn b64_value(b: u8) -> (r: Result<u8, JsonError>)
    ensures
        r matches Ok(v) ==> v < 64,
        r matches Err(e) ==> e is Syntax,
{
    if 65 <= b && b <= 90 {
        Ok(b - 65)
    } else if 97 <= b && b <= 122 {
        Ok(b - 97 + 26)
    } else if 48 <= b && b <= 57 {
        Ok(b - 48 + 52)
    } else if b == 43 {
        Ok(62)
    } else if b == 47 {
        Ok(63)
    } else {
        Err(JsonError::Syntax)
    }
}

/// Decodes standard base64 text, accepting `=` padding.
fn b64_decode(s: &[u8]) -> (r: Result<Vec<u8>, JsonError>)
    ensures
        r matches Err(e) ==> e is Syntax,
{
    let n: usize = s.len();
    let mut out: Vec<u8> = Vec::new();
    let mut i: usize = 0;
    while i < n
        invariant
            0 <= i <= n,
            n == s@.len(),
        decreases n - i,
    {
        if s[i] == 61 {
            return Ok(out);
        }
        if i + 1 >= n {
            return Err(JsonError::Syntax);
        }
        let a: u8 = match b64_value(s[i]) {
            Ok(v) => v,
            Err(e) => {
                return Err(e);
            },
        };
        let b: u8 = match b64_value(s[i + 1]) {
            Ok(v) => v,
            Err(e) => {
                return Err(e);
            },
        };
        out.push(a * 4 + b / 16);
        if i + 2 >= n || s[i + 2] == 61 {
            return Ok(out);
        }
        let c: u8 = match b64_value(s[i + 2]) {
            Ok(v) => v,
            Err(e) => {
                return Err(e);
            },
        };
        out.push(b % 16 * 16 + c / 4);
        if i + 3 >= n || s[i + 3] == 61 {
            return Ok(out);
        }
        let d: u8 = match b64_value(s[i + 3]) {
            Ok(v) => v,
            Err(e) => {
                return Err(e);
            },
        };
        out.push(c % 4 * 64 + d);
        i += 4;
    }
    Ok(out)
}

fn find_enum_number(e: &EnumDef, name: &[u8]) -> (r: Option<i32>) {
    let nv: usize = e.values.len();
    let mut i: usize = 0;
    while i < nv
        invariant
            0 <= i <= nv,
            nv == e.values@.len(),
        decreases nv - i,
    {
        if crate::names::bytes_eq(e.values[i].name.as_slice(), name) {
            return Some(e.values[i].number);
        }
        i += 1;
    }
    None
}

/// Skips one complete JSON value, of any shape.
fn skip_json_value(data: &[u8], pos: usize) -> (r: Result<usize, JsonError>)
    requires
        pos <= data@.len(),
    ensures
        r matches Ok(p) ==> pos < p <= data@.len(),
        r matches Err(e) ==> e is Syntax,
    decreases data@.len() - pos,
{
    let n: usize = data.len();
    let i: usize = skip_ws(data, pos);
    if i >= n {
        return Err(JsonError::Syntax);
    }
    let b: u8 = data[i];
    if b == 34 {
        match parse_string(data, i) {
            Ok((_, p)) => Ok(p),
            Err(e) => Err(e),
        }
    } else if b == 123 || b == 91 {
        let close: u8 = if b == 123 {
            125
        } else {
            93
        };
        let mut j: usize = skip_ws(data, i + 1);
        if j < n && data[j] == close {
            return Ok(j + 1);
        }
        loop
            invariant
                pos <= i < j <= n,
                n == data@.len(),
            decreases n - j,
        {
            if b == 123 {
                let (_, p) = match parse_string(data, j) {
                    Ok(kv) => kv,
                    Err(e) => {
                        return Err(e);
                    },
                };
                let p2: usize = skip_ws(data, p);
                let p3: usize = match expect_byte(data, p2, 58) {
                    Ok(p3) => p3,
                    Err(e) => {
                        return Err(e);
                    },
                };
                j = p3;
            }
            let p4: usize = match skip_json_value(data, j) {
                Ok(p4) => p4,
                Err(e) => {
                    return Err(e);
                },
            };
            let p5: usize = skip_ws(data, p4);
            if p5 < n && data[p5] == 44 {
                j = skip_ws(data, p5 + 1);
                if j <= p4 {
                    return Err(JsonError::Syntax);
                }
            } else if p5 < n && data[p5] == close {
                return Ok(p5 + 1);
            } else {
                return Err(JsonError::Syntax);
            }
        }
    } else {
        // a literal or number: take bytes up to a delimiter
        let mut j: usize = i;
        while j < n && data[j] != 44 && data[j] != 125 && data[j] != 93 && data[j] != 32
            && data[j] != 9 && data[j] != 10 && data[j] != 13
            invariant
                i <= j <= n,
                n == data@.len(),
            decreases n - j,
        {
            j += 1;
        }
        if j == i {
            Err(JsonError::Syntax)
        } else {
            Ok(j)
        }
    }
}


/// Parses one singular JSON value of the given kind.  `None` stands for a
/// value that is accepted but carries nothing: an unknown enum name under
/// the lenient configuration.
fn parse_single(
    pool: &FileDescriptor,
    k: Kind,
    data: &[u8],
    pos: usize,
    ignore_unknown: bool,
    accept_unknown_enums: bool,
) -> (r: Result<(Option<Value>, usize), JsonError>)
    requires
        pool.wf(),
        crate::pool::kind_wf(k, pool.types@),
        pos <= data@.len(),
    ensures
        r matches Ok(p) ==> pos < p.1 <= data@.len(),
        r matches Err(e) ==> (e is UnknownFieldName ==> !ignore_unknown) && (e
            is UnknownEnumName ==> !accept_unknown_enums),
    decreases data@.len() - pos, 1int,
{
    let n: usize = data.len();
    let i: usize = skip_ws(data, pos);
    if i >= n {
        return Err(JsonError::Syntax);
    }
    match k {
        Kind::Bool => {
            if n - i >= 4 && data[i] == 116 && data[i + 1] == 114 && data[i + 2] == 117 && data[i
                + 3] == 101 {
                Ok((Some(Value::Bool(true)), i + 4))
            } else if n - i >= 5 && data[i] == 102 && data[i + 1] == 97 && data[i + 2] == 108
                && data[i + 3] == 115 && data[i + 4] == 101 {
                Ok((Some(Value::Bool(false)), i + 5))
            } else {
                Err(JsonError::Syntax)
            }
        },
        Kind::Int32 => {
            let (neg, mag, p) = match parse_int(data, i) {
                Ok(t) => t,
                Err(e) => {
                    return Err(e);
                },
            };
            if neg {
                if mag > 0x8000_0000 {
                    return Err(JsonError::Syntax);
                }
                let x: i32 = if mag == 0x8000_0000 {
                    i32::MIN
                } else {
                    -((mag as i32))
                };
                Ok((Some(Value::Int32(x)), p))
            } else {
                if mag > 0x7FFF_FFFF {
                    return Err(JsonError::Syntax);
                }
                Ok((Some(Value::Int32(mag as i32)), p))
            }
        },
        Kind::Int64 => {
            let (neg, mag, p) = match parse_int(data, i) {
                Ok(t) => t,
                Err(e) => {
                    return Err(e);
                },
            };
            if neg {
                if mag > 0x8000_0000_0000_0000 {
                    return Err(JsonError::Syntax);
                }
                let x: i64 = if mag == 0x8000_0000_0000_0000 {
                    i64::MIN
                } else {
                    -((mag as i64))
                };
                Ok((Some(Value::Int64(x)), p))
            } else {
                if mag > 0x7FFF_FFFF_FFFF_FFFF {
                    return Err(JsonError::Syntax);
                }
                Ok((Some(Value::Int64(mag as i64)), p))
            }
        },
        Kind::Uint32 => {
            let (neg, mag, p) = match parse_int(data, i) {
                Ok(t) => t,
                Err(e) => {
                    return Err(e);
                },
            };
            if neg || mag > 0xFFFF_FFFF {
                return Err(JsonError::Syntax);
            }
            Ok((Some(Value::Uint32(mag as u32)), p))
        },
        Kind::Uint64 => {
            let (neg, mag, p) = match parse_int(data, i) {
                Ok(t) => t,
                Err(e) => {
                    return Err(e);
                },
            };
            if neg {
                return Err(JsonError::Syntax);
            }
            Ok((Some(Value::Uint64(mag)), p))
        },
        Kind::Str => {
            let (sv, p) = match parse_string(data, i) {
                Ok(t) => t,
                Err(e) => {
                    return Err(e);
                },
            };
            Ok((Some(Value::Str(sv)), p))
        },
        Kind::Bytes => {
            let (sv, p) = match parse_string(data, i) {
                Ok(t) => t,
                Err(e) => {
                    return Err(e);
                },
            };
            match b64_decode(sv.as_slice()) {
                Ok(raw) => Ok((Some(Value::Bytes(raw)), p)),
                Err(e) => Err(e),
            }
        },
        Kind::Enum(id) => {
            if data[i] == 34 {
                let (namev, p) = match parse_string(data, i) {
                    Ok(t) => t,
                    Err(e) => {
                        return Err(e);
                    },
                };
                let e: &EnumDef = match &pool.types[id] {
                    TypeDef::Enum(e) => e,
                    TypeDef::Message(_) => vstd::pervasive::unreached(),
                };
                match find_enum_number(e, namev.as_slice()) {
                    Some(num) => Ok((Some(Value::EnumNumber(num)), p)),
                    None => {
                        if accept_unknown_enums {
                            Ok((None, p))
                        } else {
                            Err(JsonError::UnknownEnumName(namev))
                        }
                    },
                }
            } else {
                let (neg, mag, p) = match parse_int(data, i) {
                    Ok(t) => t,
                    Err(e) => {
                        return Err(e);
                    },
                };
                if neg {
                    if mag > 0x8000_0000 {
                        return Err(JsonError::Syntax);
                    }
                    let x: i32 = if mag == 0x8000_0000 {
                        i32::MIN
                    } else {
                        -((mag as i32))
                    };
                    Ok((Some(Value::EnumNumber(x)), p))
                } else {
                    if mag > 0x7FFF_FFFF {
                        return Err(JsonError::Syntax);
                    }
                    Ok((Some(Value::EnumNumber(mag as i32)), p))
                }
            }
        },
        Kind::Message(id) => {
            match parse_message(pool, id, data, i, ignore_unknown, accept_unknown_enums) {
                Ok((sub, p)) => Ok((Some(Value::Message(sub)), p)),
                Err(e) => Err(e),
            }
        },
    }
}

/// Parses the key of a map member from its string form, per the key kind.
fn parse_map_key(kk: Kind, keyb: &Vec<u8>) -> (r: Result<MapKeyValue, JsonError>)
    ensures
        r matches Err(e) ==> e is Syntax,
{
    match kk {
        Kind::Bool => {
            if keyb.len() == 4 && keyb[0] == 116 && keyb[1] == 114 && keyb[2] == 117 && keyb[3]
                == 101 {
                Ok(MapKeyValue::Bool(true))
            } else if keyb.len() == 5 && keyb[0] == 102 && keyb[1] == 97 && keyb[2] == 108
                && keyb[3] == 115 && keyb[4] == 101 {
                Ok(MapKeyValue::Bool(false))
            } else {
                Err(JsonError::Syntax)
            }
        },
        Kind::Str => Ok(MapKeyValue::Str(crate::names::copy_bytes(keyb))),
        _ => {
            let (neg, mag, p) = match parse_int(keyb.as_slice(), 0) {
                Ok(t) => t,
                Err(e) => {
                    return Err(e);
                },
            };
            if p != keyb.len() {
                return Err(JsonError::Syntax);
            }
            match kk {
                Kind::Int32 => {
                    if neg {
                        if mag > 0x8000_0000 {
                            return Err(JsonError::Syntax);
                        }
                        Ok(MapKeyValue::Int32(
                            if mag == 0x8000_0000 {
                                i32::MIN
                            } else {
                                -((mag as i32))
                            },
                        ))
                    } else if mag > 0x7FFF_FFFF {
                        Err(JsonError::Syntax)
                    } else {
                        Ok(MapKeyValue::Int32(mag as i32))
                    }
                },
                Kind::Int64 => {
                    if neg {
                        if mag > 0x8000_0000_0000_0000 {
                            return Err(JsonError::Syntax);
                        }
                        Ok(MapKeyValue::Int64(
                            if mag == 0x8000_0000_0000_0000 {
                                i64::MIN
                            } else {
                                -((mag as i64))
                            },
                        ))
                    } else if mag > 0x7FFF_FFFF_FFFF_FFFF {
                        Err(JsonError::Syntax)
                    } else {
                        Ok(MapKeyValue::Int64(mag as i64))
                    }
                },
                Kind::Uint32 => {
                    if neg || mag > 0xFFFF_FFFF {
                        Err(JsonError::Syntax)
                    } else {
                        Ok(MapKeyValue::Uint32(mag as u32))
                    }
                },
                Kind::Uint64 => {
                    if neg {
                        Err(JsonError::Syntax)
                    } else {
                        Ok(MapKeyValue::Uint64(mag))
                    }
                },
                _ => Err(JsonError::Syntax),
            }
        },
    }
}

/// Parses the JSON value for one declared field; `None` stands for a JSON
/// `null`, which reads as the field staying absent.
fn parse_field_value(
    pool: &FileDescriptor,
    f: &FieldDef,
    data: &[u8],
    pos: usize,
    ignore_unknown: bool,
    accept_unknown_enums: bool,
) -> (r: Result<(Option<Value>, usize), JsonError>)
    requires
        pool.wf(),
        crate::pool::kind_wf(f.kind, pool.types@),
        pos <= data@.len(),
    ensures
        r matches Ok(p) ==> pos < p.1 <= data@.len(),
        r matches Err(e) ==> (e is UnknownFieldName ==> !ignore_unknown) && (e
            is UnknownEnumName ==> !accept_unknown_enums),
    decreases data@.len() - pos, 2int,
{
    let n: usize = data.len();
    let i: usize = skip_ws(data, pos);
    if i >= n {
        return Err(JsonError::Syntax);
    }
    if n - i >= 4 && data[i] == 110 && data[i + 1] == 117 && data[i + 2] == 108 && data[i + 3]
        == 108 {
        return Ok((None, i + 4));
    }
    let map_field: bool = match f.kind {
        Kind::Message(id) => {
            if f.cardinality == Cardinality::Repeated {
                match &pool.types[id] {
                    TypeDef::Message(md) => md.is_map_entry,
                    TypeDef::Enum(_) => false,
                }
            } else {
                false
            }
        },
        _ => false,
    };
    if map_field {
        let id: usize = match f.kind {
            Kind::Message(idd) => idd,
            _ => 0,
        };
        let entry_def: &MessageDef = match &pool.types[id] {
            TypeDef::Message(md) => md,
            TypeDef::Enum(_) => vstd::pervasive::unreached(),
        };
        proof {
            assert(crate::pool::message_wf(*entry_def, pool.types@));
        }
        let kk: Kind = entry_def.fields[0].kind;
        let vk: Kind = entry_def.fields[1].kind;
        let mut j: usize = match expect_byte(data, i, 123) {
            Ok(p) => p,
            Err(e) => {
                return Err(e);
            },
        };
        let mut entries: Vec<MapEntryValue> = Vec::new();
        j = skip_ws(data, j);
        if j < n && data[j] == 125 {
            return Ok((Some(Value::Mapping(entries)), j + 1));
        }
        loop
            invariant
                pool.wf(),
                pos < j <= n,
                n == data@.len(),
                crate::pool::kind_wf(vk, pool.types@),
            decreases n - j,
        {
            let (keyb, p) = match parse_string(data, j) {
                Ok(t) => t,
                Err(e) => {
                    return Err(e);
                },
            };
            let key: MapKeyValue = match parse_map_key(kk, &keyb) {
                Ok(kv) => kv,
                Err(e) => {
                    return Err(e);
                },
            };
            let p2: usize = skip_ws(data, p);
            let p3: usize = match expect_byte(data, p2, 58) {
                Ok(t) => t,
                Err(e) => {
                    return Err(e);
                },
            };
            let (value_opt, p4): (Option<Value>, usize) = match parse_single(
                pool,
                vk,
                data,
                p3,
                ignore_unknown,
                accept_unknown_enums,
            ) {
                Ok(t) => t,
                Err(e) => {
                    return Err(e);
                },
            };
            let mut kept: Vec<MapEntryValue> = Vec::new();
            loop
                invariant
                    true,
                decreases entries@.len(),
            {
                match entries.pop() {
                    Some(e) => {
                        if !crate::dynamic::keys_equal(&e.key, &key) {
                            kept.push(e);
                        }
                    },
                    None => {
                        break;
                    },
                }
            }
            match value_opt {
                Some(value) => kept.push(MapEntryValue { key, value }),
                None => {},
            }
            entries = kept;
            let p5: usize = skip_ws(data, p4);
            if p5 < n && data[p5] == 44 {
                j = skip_ws(data, p5 + 1);
                if j <= p4 {
                    return Err(JsonError::Syntax);
                }
            } else if p5 < n && data[p5] == 125 {
                return Ok((Some(Value::Mapping(entries)), p5 + 1));
            } else {
                return Err(JsonError::Syntax);
            }
        }
    } else if f.cardinality == Cardinality::Repeated {
        let mut j: usize = match expect_byte(data, i, 91) {
            Ok(p) => p,
            Err(e) => {
                return Err(e);
            },
        };
        let mut items: Vec<Value> = Vec::new();
        j = skip_ws(data, j);
        if j < n && data[j] == 93 {
            return Ok((Some(Value::List(items)), j + 1));
        }
        loop
            invariant
                pool.wf(),
                pos < j <= n,
                n == data@.len(),
                crate::pool::kind_wf(f.kind, pool.types@),
            decreases n - j,
        {
            let (value_opt, p): (Option<Value>, usize) = match parse_single(
                pool,
                f.kind,
                data,
                j,
                ignore_unknown,
                accept_unknown_enums,
            ) {
                Ok(t) => t,
                Err(e) => {
                    return Err(e);
                },
            };
            match value_opt {
                Some(value) => items.push(value),
                None => {},
            }
            let p2: usize = skip_ws(data, p);
            if p2 < n && data[p2] == 44 {
                j = skip_ws(data, p2 + 1);
                if j <= p {
                    return Err(JsonError::Syntax);
                }
            } else if p2 < n && data[p2] == 93 {
                return Ok((Some(Value::List(items)), p2 + 1));
            } else {
                return Err(JsonError::Syntax);
            }
        }
    } else {
        match parse_single(pool, f.kind, data, i, ignore_unknown, accept_unknown_enums) {
            Ok((v, p)) => Ok((v, p)),
            Err(e) => Err(e),
        }
    }
}

/// Parses a JSON object into a dynamic message of the type `ty`.
///
/// Members are matched by JSON name or declared name; an unmatched key is
/// an error unless unknown fields are ignored; a `null` member leaves the
/// field absent; a later member for a oneof clears earlier siblings, as a
/// direct set does.
fn parse_message(
    pool: &FileDescriptor,
    ty: usize,
    data: &[u8],
    pos: usize,
    ignore_unknown: bool,
    accept_unknown_enums: bool,
) -> (r: Result<(DynamicMessage, usize), JsonError>)
    requires
        pool.wf(),
        ty < pool.types@.len(),
        pool.types@[ty as int] is Message,
        pos <= data@.len(),
    ensures
        r matches Ok(p) ==> pos < p.1 <= data@.len() && crate::dynamic::message_ok(
            pool.types@,
            p.0,
        ) && p.0.ty == ty,
        pos == 0 && data@ == seq![123u8, 125u8] ==> (r matches Ok(p) && p.0.fields@.len() == 0
            && p.0.unknown@.len() == 0 && p.1 == 2),
        r matches Err(e) ==> (e is UnknownFieldName ==> !ignore_unknown) && (e
            is UnknownEnumName ==> !accept_unknown_enums),
    decreases data@.len() - pos, 0int,
{
    let ghost tiny = pos == 0 && data@ == seq![123u8, 125u8];
    let ghost types = pool.types@;
    let n: usize = data.len();
    let def: &MessageDef = match &pool.types[ty] {
        TypeDef::Message(md) => md,
        TypeDef::Enum(_) => vstd::pervasive::unreached(),
    };
    let mut m = DynamicMessage { ty, fields: Vec::new(), unknown: Vec::new() };
    let i: usize = skip_ws(data, pos);
    proof {
        if tiny {
            assert(data@[0] == 123u8);
            assert(data@[1] == 125u8);
            assert(!is_ws(data@[0]));
            assert(i == 0);
        }
    }
    let mut j: usize = match expect_byte(data, i, 123) {
        Ok(p) => p,
        Err(e) => {
            return Err(e);
        },
    };
    proof {
        if tiny {
            assert(j == 1);
            assert(!is_ws(data@[1]));
        }
    }
    j = skip_ws(data, j);
    if j < n && data[j] == 125 {
        return Ok((m, j + 1));
    }
    proof {
        if tiny {
            assert(j == 1);
            assert(false);
        }
    }
    loop
        invariant
            pool.wf(),
            types == pool.types@,
            ty < types.len() && types[ty as int] is Message,
            *def == crate::dynamic::def_of(types, ty as int),
            crate::pool::message_wf(*def, types),
            crate::dynamic::message_ok(types, m),
            m.ty == ty,
            pos < j <= n,
            n == data@.len(),
            !(pos == 0 && data@ == seq![123u8, 125u8]),
        decreases n - j,
    {
        let (keyb, p) = match parse_string(data, j) {
            Ok(t) => t,
            Err(e) => {
                return Err(e);
            },
        };
        let p2: usize = skip_ws(data, p);
        let p3: usize = match expect_byte(data, p2, 58) {
            Ok(t) => t,
            Err(e) => {
                return Err(e);
            },
        };
        // match the key against JSON names first, then declared names
        let nf: usize = def.fields.len();
        let mut found: Option<usize> = None;
        let mut fi: usize = 0;
        while fi < nf
            invariant
                nf == def.fields@.len(),
                0 <= fi <= nf,
                match found {
                    Some(k) => k < nf,
                    None => true,
                },
            decreases nf - fi,
        {
            if crate::names::bytes_eq(def.fields[fi].json_name.as_slice(), keyb.as_slice())
                || crate::names::bytes_eq(def.fields[fi].name.as_slice(), keyb.as_slice()) {
                found = Some(fi);
                fi = nf;
            } else {
                fi += 1;
            }
        }
        let p4: usize = match found {
            Some(k) => {
                let f = &def.fields[k];
                proof {
                    assert(crate::pool::field_wf(
                        def.fields@[k as int],
                        types,
                        def.oneofs@.len() as int,
                    ));
                }
                let (vopt, p4) = match parse_field_value(
                    pool,
                    f,
                    data,
                    p3,
                    ignore_unknown,
                    accept_unknown_enums,
                ) {
                    Ok(t) => t,
                    Err(e) => {
                        return Err(e);
                    },
                };
                match vopt {
                    Some(v) => {
                        match m.set_field(pool, f.number, v) {
                            Ok(()) => {},
                            Err(_) => {
                                return Err(JsonError::ValueMismatch(f.number));
                            },
                        }
                    },
                    None => {},
                }
                p4
            },
            None => {
                if !ignore_unknown {
                    return Err(JsonError::UnknownFieldName(keyb));
                }
                match skip_json_value(data, p3) {
                    Ok(p4) => p4,
                    Err(e) => {
                        return Err(e);
                    },
                }
            },
        };
        let p5: usize = skip_ws(data, p4);
        if p5 < n && data[p5] == 44 {
            j = skip_ws(data, p5 + 1);
            if j <= p4 {
                return Err(JsonError::Syntax);
            }
        } else if p5 < n && data[p5] == 125 {
            return Ok((m, p5 + 1));
        } else {
            return Err(JsonError::Syntax);
        }
    }
}

/// Decodes UTF-8 JSON text into a dynamic message of the type `ty`.
/// Decoding is all-or-nothing; the result is always a valid message bound
/// to `ty`.  An unknown member key fails unless `ignore_unknown` is set;
/// an unknown enum name string fails unless `accept_unknown_enums` is set,
/// in which case the value is accepted and stays absent (numeric enum
/// values are always accepted).
pub fn json_decode(
    pool: &FileDescriptor,
    ty: usize,
    data: &[u8],
    ignore_unknown: bool,
    accept_unknown_enums: bool,
) -> (r: Result<DynamicMessage, JsonError>)
    requires
        pool.wf(),
        ty < pool.types@.len(),
        pool.types@[ty as int] is Message,
    ensures
        r matches Ok(m) ==> crate::dynamic::message_ok(pool.types@, m) && m.ty == ty,
        data@ == seq![123u8, 125u8] ==> (r matches Ok(m) && m.fields@.len() == 0
            && m.unknown@.len() == 0),
        r matches Err(e) ==> (e is UnknownFieldName ==> !ignore_unknown) && (e
            is UnknownEnumName ==> !accept_unknown_enums),
{
    match parse_message(pool, ty, data, 0, ignore_unknown, accept_unknown_enums) {
        Ok((m, p)) => {
            let e: usize = skip_ws(data, p);
            if e != data.len() {
                Err(JsonError::Syntax)
            } else {
                Ok(m)
            }
        },
        Err(e) => Err(e),
    }
}

} // verus!
