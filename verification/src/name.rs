//! Type names as they cross the boundary: UTF-8, closed by one NUL byte.
use vstd::prelude::*;
use vstd::slice::slice_subrange;
use vstd::string::StringSliceAdditionalSpecFns;
use vstd::utf8::{decode_utf8, encode_utf8, valid_utf8};

verus! {

/// Whether `name` can be a type name: its encoding holds no NUL byte.
pub open spec fn valid_type_name(name: Seq<char>) -> bool {
    !encode_utf8(name).contains(0u8)
}

/// The bytes that stand for `name` on the wire.
pub open spec fn wire_name(name: Seq<char>) -> Seq<u8> {
    encode_utf8(name).push(0u8)
}

/// The name that `bytes` stand for, if they are a well-formed wire name:
/// not empty, closed by the only NUL byte among them, and UTF-8 before it.
pub open spec fn parse_wire_name(bytes: Seq<u8>) -> Option<Seq<char>> {
    if bytes.len() > 0 && bytes.last() == 0u8 && !bytes.drop_last().contains(0u8) && valid_utf8(
        bytes.drop_last(),
    ) {
        Some(decode_utf8(bytes.drop_last()))
    } else {
        None
    }
}

/// A name put on the wire and read back is the same name.
pub proof fn law_wire_name_round_trip(name: Seq<char>)
    requires
        valid_type_name(name),
    ensures
        parse_wire_name(wire_name(name)) == Some(name),
{
    let bytes = wire_name(name);
    assert(bytes.drop_last() =~= encode_utf8(name));
    vstd::utf8::encode_utf8_valid_utf8(name);
    vstd::utf8::encode_utf8_decode_utf8(name);
}

/// No two names share a wire form.
pub proof fn law_wire_names_differ(a: Seq<char>, b: Seq<char>)
    requires
        wire_name(a) == wire_name(b),
    ensures
        a == b,
{
    assert(wire_name(a).drop_last() =~= encode_utf8(a));
    assert(wire_name(b).drop_last() =~= encode_utf8(b));
    vstd::utf8::encode_utf8_decode_utf8(a);
    vstd::utf8::encode_utf8_decode_utf8(b);
}

/// Whether none of the bytes is NUL.
fn has_no_nul(bytes: &[u8]) -> (b: bool)
    ensures
        b == !bytes@.contains(0u8),
{
    let mut i: usize = 0;
    while i < bytes.len()
        invariant
            i <= bytes.len(),
            forall|j: int| 0 <= j < i ==> bytes@[j] != 0u8,
        decreases bytes.len() - i,
    {
        if bytes[i] == 0 {
            return false;
        }
        i += 1;
    }
    true
}

/// `std::str::from_utf8`: the bytes as a string slice when they are valid
/// UTF-8, and nothing otherwise. The slice, where there is one, has exactly
/// the given bytes.
#[verifier::external_body]
fn str_from_utf8(bytes: &[u8]) -> (r: Option<&str>)
    ensures
        r is Some <==> valid_utf8(bytes@),
        r matches Some(s) ==> s.spec_bytes() == bytes@,
{
    match std::str::from_utf8(bytes) {
        Ok(s) => Some(s),
        Err(_) => None,
    }
}

/// Whether `name` can be a type name.
pub fn is_valid_type_name(name: &str) -> (b: bool)
    ensures
        b == valid_type_name(name@),
{
    has_no_nul(name.as_bytes())
}

/// Puts `name` on the wire. `None` where the name holds a NUL.
pub fn encode_type_name(name: &str) -> (r: Option<Vec<u8>>)
    ensures
        match r {
            Some(bytes) => valid_type_name(name@) && bytes@ == wire_name(name@),
            None => !valid_type_name(name@),
        },
{
    let bytes = name.as_bytes();
    if !has_no_nul(bytes) {
        return None;
    }
    let mut out: Vec<u8> = Vec::new();
    let mut i: usize = 0;
    while i < bytes.len()
        invariant
            i <= bytes.len(),
            out@ == bytes@.take(i as int),
        decreases bytes.len() - i,
    {
        out.push(bytes[i]);
        assert(bytes@.take(i + 1) =~= bytes@.take(i as int).push(bytes@[i as int]));
        i += 1;
    }
    assert(bytes@.take(bytes.len() as int) =~= bytes@);
    out.push(0u8);
    Some(out)
}

/// Reads a name off the wire. `None` where the bytes are not a well-formed
/// wire name.
pub fn decode_type_name(bytes: &[u8]) -> (r: Option<String>)
    ensures
        match r {
            Some(name) => parse_wire_name(bytes@) == Some(name@),
            None => parse_wire_name(bytes@) is None,
        },
{
    let len = bytes.len();
    if len == 0 {
        return None;
    }
    if bytes[len - 1] != 0 {
        return None;
    }
    let body = slice_subrange(bytes, 0, len - 1);
    assert(body@ =~= bytes@.drop_last());
    if !has_no_nul(body) {
        return None;
    }
    match str_from_utf8(body) {
        Some(s) => {
            proof {
                vstd::utf8::encode_utf8_decode_utf8(s@);
            }
            Some(s.to_owned())
        },
        None => None,
    }
}

} // verus!
