//! Protocol-buffers wire encoding of the few field kinds the distribution
//! files use: varint scalars, strings, bytes and embedded messages.
//!
//! Scalar, string and bytes fields follow proto3 rules: a field that holds
//! its default value (0 or empty) is not written at all.  Embedded messages
//! of a repeated field are always written, each as a length-delimited record.

use vstd::prelude::*;
use vstd::utf8::*;

verus! {

/// The base-128 varint encoding of `v`: seven bits per byte, least
/// significant group first, the high bit set on every byte but the last.
pub open spec fn varint(v: nat) -> Seq<u8>
    decreases v,
{
    if v < 128 {
        seq![v as u8]
    } else {
        seq![(v % 128 + 128) as u8] + varint(v / 128)
    }
}

/// Wire type of varint scalars.
pub open spec fn wire_varint() -> nat {
    0
}

/// Wire type of length-delimited records (strings, bytes, messages).
pub open spec fn wire_len() -> nat {
    2
}

/// The key that precedes a field on the wire.
pub open spec fn field_key(field: nat, wire: nat) -> Seq<u8> {
    varint(field * 8 + wire)
}

/// A length-delimited record: key, payload length, payload.
pub open spec fn length_delimited(field: nat, payload: Seq<u8>) -> Seq<u8> {
    field_key(field, wire_len()) + varint(payload.len()) + payload
}

/// A singular proto3 `string` field holding `chars`.
pub open spec fn string_field(field: nat, chars: Seq<char>) -> Seq<u8> {
    if chars.len() == 0 {
        Seq::empty()
    } else {
        length_delimited(field, encode_utf8(chars))
    }
}

/// A singular proto3 `bytes` field holding `bytes`.
pub open spec fn bytes_field(field: nat, bytes: Seq<u8>) -> Seq<u8> {
    if bytes.len() == 0 {
        Seq::empty()
    } else {
        length_delimited(field, bytes)
    }
}

/// A singular proto3 unsigned (or non-negative `int32`) scalar field.
pub open spec fn uint_field(field: nat, value: nat) -> Seq<u8> {
    if value == 0 {
        Seq::empty()
    } else {
        field_key(field, wire_varint()) + varint(value)
    }
}

/// `prost::encoding::encode_varint`: appends the base-128 varint encoding
/// of `value` to the buffer.  Claimed: exactly the bytes of `varint(value)`
/// are appended (the crate writes at most ten groups, which covers every
/// `u64`), and nothing else in the buffer changes.
#[verifier::external_body]
fn encode_varint(value: u64, buf: &mut Vec<u8>)
    ensures
        final(buf)@ == old(buf)@ + varint(value as nat),
{
    prost::encoding::encode_varint(value, buf)
}

/// Appends every byte of `bytes` to `buf`.
pub fn push_bytes(buf: &mut Vec<u8>, bytes: &[u8])
    ensures
        final(buf)@ == old(buf)@ + bytes@,
{
    let n = bytes.len();
    let mut i: usize = 0;
    while i < n
        invariant
            n == bytes@.len(),
            i <= n,
            buf@ == old(buf)@ + bytes@.take(i as int),
        decreases n - i,
    {
        buf.push(bytes[i]);
        assert(bytes@.take(i + 1) == bytes@.take(i as int).push(bytes@[i as int]));
        i = i + 1;
    }
    assert(bytes@.take(n as int) == bytes@);
}

/// Appends the key of field `field` with wire type `wire`.  Field numbers
/// of protocol buffers are below 2^29.
pub fn put_key(field: u64, wire: u64, buf: &mut Vec<u8>)
    requires
        field < 0x2000_0000,
        wire < 8,
    ensures
        final(buf)@ == old(buf)@ + field_key(field as nat, wire as nat),
{
    encode_varint(field * 8 + wire, buf);
}

/// Appends `payload` as a length-delimited record of field `field`.
pub fn put_length_delimited(field: u64, payload: &[u8], buf: &mut Vec<u8>)
    requires
        field < 0x2000_0000,
    ensures
        final(buf)@ == old(buf)@ + length_delimited(field as nat, payload@),
{
    put_key(field, 2, buf);
    encode_varint(payload.len() as u64, buf);
    push_bytes(buf, payload);
}

/// Appends a proto3 `string` field (nothing when `value` is empty).
pub fn put_string(field: u64, value: &str, buf: &mut Vec<u8>)
    requires
        field < 0x2000_0000,
    ensures
        final(buf)@ == old(buf)@ + string_field(field as nat, value@),
{
    if value.is_empty() {
        assert(old(buf)@ + Seq::<u8>::empty() == old(buf)@);
    } else {
        put_length_delimited(field, value.as_bytes(), buf);
    }
}

/// Appends a proto3 `bytes` field (nothing when `value` is empty).
pub fn put_bytes(field: u64, value: &[u8], buf: &mut Vec<u8>)
    requires
        field < 0x2000_0000,
    ensures
        final(buf)@ == old(buf)@ + bytes_field(field as nat, value@),
{
    if value.len() == 0 {
        assert(old(buf)@ + Seq::<u8>::empty() == old(buf)@);
    } else {
        put_length_delimited(field, value, buf);
    }
}

/// Appends a proto3 unsigned scalar field (nothing when `value` is 0).
pub fn put_uint(field: u64, value: u64, buf: &mut Vec<u8>)
    requires
        field < 0x2000_0000,
    ensures
        final(buf)@ == old(buf)@ + uint_field(field as nat, value as nat),
{
    if value == 0 {
        assert(old(buf)@ + Seq::<u8>::empty() == old(buf)@);
    } else {
        put_key(field, 0, buf);
        encode_varint(value, buf);
    }
}

} // verus!
