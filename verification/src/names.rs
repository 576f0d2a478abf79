//! Byte-string utilities for dotted, package-qualified names.
//!
//! Every declared identifier is a run of ASCII bytes; a full name joins the
//! enclosing namespace and the local identifier with a dot.  All functions
//! here state their results exactly over the byte sequences involved.

use vstd::prelude::*;
use vstd::slice::slice_subrange;

verus! {

/// The separator between name segments.
pub const DOT: u8 = 46;

/// The underscore byte, dropped when deriving JSON names.
pub const UNDERSCORE: u8 = 95;

/// All bytes of `s` are in the ASCII range.
pub open spec fn ascii_bytes(s: Seq<u8>) -> bool {
    forall|i: int| 0 <= i < s.len() ==> s[i] < 128
}

/// The full name of `n` declared inside namespace `ns`: `ns` and `n` joined
/// by a dot, or `n` alone when the namespace is empty.
pub open spec fn full_name_of(ns: Seq<u8>, n: Seq<u8>) -> Seq<u8> {
    if ns.len() == 0 {
        n
    } else {
        ns + seq![DOT] + n
    }
}

/// Index of the last dot in `s`, or -1 when `s` holds none.
pub open spec fn last_dot(s: Seq<u8>) -> int
    decreases s.len(),
{
    if s.len() == 0 {
        -1
    } else if s[s.len() - 1] == DOT {
        s.len() - 1
    } else {
        last_dot(s.drop_last())
    }
}

/// The segment after the last dot of `s` (all of `s` when it has no dot).
pub open spec fn name_part(s: Seq<u8>) -> Seq<u8> {
    s.subrange(last_dot(s) + 1, s.len() as int)
}

/// The prefix before the last dot of `s` (empty when it has no dot).
pub open spec fn namespace_part(s: Seq<u8>) -> Seq<u8> {
    if last_dot(s) < 0 {
        Seq::empty()
    } else {
        s.subrange(0, last_dot(s))
    }
}

pub proof fn lemma_last_dot_bounds(s: Seq<u8>)
    ensures
        -1 <= last_dot(s) < s.len(),
        last_dot(s) >= 0 ==> s[last_dot(s)] == DOT,
        forall|j: int| last_dot(s) < j < s.len() ==> s[j] != DOT,
    decreases s.len(),
{
    if s.len() == 0 {
    } else if s[s.len() - 1] == DOT {
    } else {
        lemma_last_dot_bounds(s.drop_last());
        assert(forall|j: int| 0 <= j < s.len() - 1 ==> s.drop_last()[j] == s[j]);
    }
}

proof fn lemma_last_dot_determined(s: Seq<u8>, d: int)
    requires
        0 <= d < s.len(),
        s[d] == DOT,
        forall|j: int| d < j < s.len() ==> s[j] != DOT,
    ensures
        last_dot(s) == d,
    decreases s.len(),
{
    if d == s.len() - 1 {
    } else {
        assert(forall|j: int| 0 <= j < s.len() - 1 ==> s.drop_last()[j] == s[j]);
        lemma_last_dot_determined(s.drop_last(), d);
    }
}

proof fn lemma_no_dot(s: Seq<u8>)
    requires
        forall|j: int| 0 <= j < s.len() ==> s[j] != DOT,
    ensures
        last_dot(s) == -1,
    decreases s.len(),
{
    if s.len() > 0 {
        assert(forall|j: int| 0 <= j < s.len() - 1 ==> s.drop_last()[j] == s[j]);
        lemma_no_dot(s.drop_last());
    }
}

/// True when the two byte strings hold the same bytes.
pub fn bytes_eq(a: &[u8], b: &[u8]) -> (r: bool)
    ensures
        r == (a@ == b@),
{
    if a.len() != b.len() {
        proof {
            assert(a@.len() != b@.len());
        }
        return false;
    }
    let n: usize = a.len();
    let mut i: usize = 0;
    while i < n
        invariant
            n == a@.len() == b@.len(),
            0 <= i <= n,
            forall|j: int| 0 <= j < i ==> a@[j] == b@[j],
        decreases n - i,
    {
        if a[i] != b[i] {
            return false;
        }
        i += 1;
    }
    proof {
        assert(a@ =~= b@);
    }
    true
}

/// Appends the bytes of `s` to `out`.
pub fn append_bytes(out: &mut Vec<u8>, s: &[u8])
    ensures
        final(out)@ == old(out)@ + s@,
{
    let n: usize = s.len();
    let mut i: usize = 0;
    while i < n
        invariant
            n == s@.len(),
            0 <= i <= n,
            out@ == old(out)@ + s@.subrange(0, i as int),
        decreases n - i,
    {
        out.push(s[i]);
        proof {
            assert(s@.subrange(0, i as int).push(s@[i as int]) =~= s@.subrange(0, i + 1));
        }
        i += 1;
    }
    proof {
        assert(s@.subrange(0, n as int) =~= s@);
    }
}

/// Joins a namespace and a local identifier into a full name.
pub fn make_full_name(ns: &[u8], name: &[u8]) -> (r: Vec<u8>)
    ensures
        r@ == full_name_of(ns@, name@),
{
    let mut out: Vec<u8> = Vec::new();
    if ns.len() > 0 {
        append_bytes(&mut out, ns);
        out.push(DOT);
    }
    append_bytes(&mut out, name);
    proof {
        if ns@.len() > 0 {
            assert(out@ =~= full_name_of(ns@, name@));
        } else {
            assert(out@ =~= name@);
        }
    }
    out
}

/// Index just past the last dot of `s`, or 0 when `s` has no dot.
fn find_name_start(s: &[u8]) -> (r: usize)
    ensures
        r == last_dot(s@) + 1,
{
    let n: usize = s.len();
    let mut i: usize = n;
    while i > 0
        invariant
            n == s@.len(),
            0 <= i <= n,
            forall|j: int| i <= j < n ==> s@[j] != DOT,
        decreases i,
    {
        if s[i - 1] == DOT {
            proof {
                lemma_last_dot_determined(s@, i - 1);
            }
            return i;
        }
        i -= 1;
    }
    proof {
        lemma_no_dot(s@);
    }
    0
}

/// The segment of `s` after its last dot, e.g. `Inner` of `a.b.Outer.Inner`.
/// Returns all of `s` when it holds no dot.
pub fn parse_name_bytes<'a>(s: &'a [u8]) -> (r: &'a [u8])
    ensures
        r@ == name_part(s@),
{
    let start: usize = find_name_start(s);
    proof {
        lemma_last_dot_bounds(s@);
    }
    slice_subrange(s, start, s.len())
}

/// The prefix of `s` before its last dot, e.g. `a.b.Outer` of
/// `a.b.Outer.Inner`.  Returns the empty string when `s` holds no dot.
pub fn parse_namespace_bytes<'a>(s: &'a [u8]) -> (r: &'a [u8])
    ensures
        r@ == namespace_part(s@),
{
    let start: usize = find_name_start(s);
    proof {
        lemma_last_dot_bounds(s@);
    }
    if start == 0 {
        proof {
            assert(s@.subrange(0, 0) =~= Seq::<u8>::empty());
        }
        slice_subrange(s, 0, 0)
    } else {
        slice_subrange(s, 0, start - 1)
    }
}

/// Splitting a joined full name recovers its two parts, as long as the local
/// identifier holds no dot of its own.
pub proof fn lemma_full_name_split(ns: Seq<u8>, n: Seq<u8>)
    requires
        forall|j: int| 0 <= j < n.len() ==> n[j] != DOT,
        ns.len() == 0 ==> last_dot(n) == -1,
    ensures
        name_part(full_name_of(ns, n)) == n,
        ns.len() > 0 ==> namespace_part(full_name_of(ns, n)) == ns,
{
    let f = full_name_of(ns, n);
    if ns.len() == 0 {
        assert(name_part(f) =~= n);
    } else {
        assert(f[ns.len() as int] == DOT);
        assert(forall|j: int| ns.len() < j < f.len() ==> f[j] == n[j - ns.len() - 1]);
        lemma_last_dot_determined(f, ns.len() as int);
        assert(name_part(f) =~= n);
        assert(namespace_part(f) =~= ns);
    }
}

/// The uppercase form of an ASCII letter; other bytes are unchanged.
pub open spec fn upper(b: u8) -> u8 {
    if 97 <= b <= 122 {
        (b - 32) as u8
    } else {
        b
    }
}

/// The JSON name derived from a declared field name: underscores are dropped
/// and the byte after each underscore is upper-cased.  `cap` carries whether
/// the next byte follows a dropped underscore.
pub open spec fn json_name_of(s: Seq<u8>, cap: bool) -> Seq<u8>
    decreases s.len(),
{
    if s.len() == 0 {
        Seq::empty()
    } else if s[0] == UNDERSCORE {
        json_name_of(s.drop_first(), true)
    } else {
        seq![if cap { upper(s[0]) } else { s[0] }] + json_name_of(s.drop_first(), false)
    }
}

/// Derives the camel-cased JSON name of a declared field name.
pub fn to_json_name(s: &[u8]) -> (r: Vec<u8>)
    ensures
        r@ == json_name_of(s@, false),
{
    let n: usize = s.len();
    let mut out: Vec<u8> = Vec::new();
    let mut cap: bool = false;
    let mut i: usize = 0;
    proof {
        assert(s@.subrange(0, n as int) =~= s@);
        assert(out@ + json_name_of(s@, false) =~= json_name_of(s@, false));
    }
    while i < n
        invariant
            n == s@.len(),
            0 <= i <= n,
            out@ + json_name_of(s@.subrange(i as int, n as int), cap) == json_name_of(s@, false),
        decreases n - i,
    {
        let b: u8 = s[i];
        let ghost prev = out@;
        proof {
            assert(s@.subrange(i as int, n as int).drop_first() =~= s@.subrange(
                i + 1,
                n as int,
            ));
            assert(s@.subrange(i as int, n as int)[0] == s@[i as int]);
        }
        if b == UNDERSCORE {
            cap = true;
        } else if cap {
            if 97 <= b && b <= 122 {
                out.push(b - 32);
            } else {
                out.push(b);
            }
            cap = false;
            proof {
                assert(out@ =~= prev + seq![upper(s@[i as int])]);
                assert(out@ + json_name_of(s@.subrange(i + 1, n as int), false) =~= prev
                    + json_name_of(s@.subrange(i as int, n as int), true));
            }
        } else {
            out.push(b);
            proof {
                assert(out@ =~= prev + seq![s@[i as int]]);
                assert(out@ + json_name_of(s@.subrange(i + 1, n as int), false) =~= prev
                    + json_name_of(s@.subrange(i as int, n as int), false));
            }
        }
        i += 1;
    }
    proof {
        assert(s@.subrange(n as int, n as int) =~= Seq::<u8>::empty());
        assert(out@ + Seq::<u8>::empty() =~= out@);
    }
    out
}

/// The characters corresponding to a run of ASCII bytes, one per byte.
pub open spec fn ascii_chars(s: Seq<u8>) -> Seq<char> {
    s.map_values(|b: u8| b as char)
}

/// Both halves of an ASCII name are ASCII.
pub proof fn lemma_parts_ascii(s: Seq<u8>)
    requires
        ascii_bytes(s),
    ensures
        ascii_bytes(name_part(s)),
        ascii_bytes(namespace_part(s)),
{
    lemma_last_dot_bounds(s);
}

/// Relies on `String::from_utf8`: for bytes in the ASCII range it returns the
/// string whose characters are exactly those bytes, one character per byte.
#[verifier::external_body]
pub fn string_from_ascii(v: Vec<u8>) -> (r: String)
    requires
        ascii_bytes(v@),
    ensures
        r@ == ascii_chars(v@),
{
    match String::from_utf8(v) {
        Ok(s) => s,
        Err(_) => String::new(),
    }
}


/// A fresh byte vector holding the same bytes as `v`.
pub fn copy_bytes(v: &Vec<u8>) -> (r: Vec<u8>)
    ensures
        r@ == v@,
{
    vstd::slice::slice_to_vec(v.as_slice())
}

/// True when every byte of `s` is in the ASCII range.
pub fn check_ascii(s: &[u8]) -> (r: bool)
    ensures
        r == ascii_bytes(s@),
{
    let n: usize = s.len();
    let mut i: usize = 0;
    while i < n
        invariant
            n == s@.len(),
            0 <= i <= n,
            forall|j: int| 0 <= j < i ==> s@[j] < 128,
        decreases n - i,
    {
        if s[i] >= 128 {
            return false;
        }
        i += 1;
    }
    true
}

} // verus!
