//! The protobuf field primitives that `prost` provides, with what they read
//! and write stated over the varint encoding.
use vstd::prelude::*;
use crate::varint::{varint_at, varint_bytes, varint_len};

verus! {

/// The error that `prost` reports on malformed input.
#[verifier::external_type_specification]
#[verifier::external_body]
pub struct ExProstDecodeError(prost::DecodeError);

/// The largest field number that protobuf allows.
pub const MAX_TAG: u32 = 0x1fff_ffff;

/// Wire type code of a length-delimited field (bytes, strings, messages).
pub const LENGTH_DELIMITED: u8 = 2;

/// The field key at the start of `s`: field number, wire type code and the
/// key's length in bytes. A key is a varint no larger than `u32::MAX` whose low
/// three bits are a wire type code from 0 to 5 and whose remaining bits are a
/// field number of at least 1.
pub open spec fn key_at(s: Seq<u8>) -> Option<(nat, nat, nat)> {
    match varint_at(s) {
        Some((k, n)) => if k > u32::MAX || k % 8 > 5 || k / 8 == 0 {
            None
        } else {
            Some((k / 8, k % 8, n))
        },
        None => None,
    }
}

/// The payload of a length-delimited field whose key has been read, at the
/// start of `s`, and the bytes it spans (length prefix included): the wire type
/// must be `LENGTH_DELIMITED`, and the length prefix must not exceed what follows it.
pub open spec fn bytes_field_at(wire: nat, s: Seq<u8>) -> Option<(Seq<u8>, nat)> {
    if wire != LENGTH_DELIMITED {
        None
    } else {
        match varint_at(s) {
            Some((len, n)) => if len > s.len() - n {
                None
            } else {
                Some((s.subrange(n as int, (n + len) as int), n + len))
            },
            None => None,
        }
    }
}

/// How many bytes `prost` skips for an unknown group (wire type 3) with the
/// given field number at the start of `bytes`, up to and including the group's
/// end key, or `None` when it reports the group as malformed.
pub uninterp spec fn skipped_group_len(tag: u32, bytes: Seq<u8>) -> Option<nat>;

/// How many bytes an unknown field with the given wire type code spans at the
/// start of `bytes`, after its key: a varint (0); eight bytes (1); a length
/// prefix and that many bytes (2); a group (3); four bytes (5). A stray group
/// end (4), or too few bytes, is malformed.
pub open spec fn skipped_field_len(wire: u8, tag: u32, bytes: Seq<u8>) -> Option<nat> {
    if wire == 0 {
        varint_len(bytes)
    } else if wire == 1 {
        if bytes.len() >= 8 {
            Some(8)
        } else {
            None
        }
    } else if wire == 2 {
        match varint_at(bytes) {
            Some((len, n)) => if len > bytes.len() - n {
                None
            } else {
                Some(n + len)
            },
            None => None,
        }
    } else if wire == 3 {
        skipped_group_len(tag, bytes)
    } else if wire == 5 {
        if bytes.len() >= 4 {
            Some(4)
        } else {
            None
        }
    } else {
        None
    }
}

/// `prost::encoding::bytes::encode` of a `Vec<u8>` into a `Vec<u8>`: appends the
/// key `tag * 8 + 2` as a varint, then the payload's length as a varint, then the
/// payload.
#[verifier::external_body]
pub fn put_bytes_field(tag: u32, value: &Vec<u8>, buf: &mut Vec<u8>)
    requires
        1 <= tag <= MAX_TAG,
    ensures
        final(buf)@ == old(buf)@ + varint_bytes((tag * 8 + 2) as nat) + varint_bytes(value@.len()) + value@,
{
    prost::encoding::bytes::encode(tag, value, buf)
}

/// `prost::encoding::decode_key` on a byte slice: on success, the field number,
/// the wire type code and the rest of the slice after the key; an error exactly
/// when the slice does not start with a valid key.
#[verifier::external_body]
pub fn read_key(buf: &[u8]) -> (res: (Result<(u32, u8), prost::DecodeError>, &[u8]))
    ensures
        key_at(buf@) matches Some((tag, wire, n)) ==> {
            &&& res.0 == Ok::<(u32, u8), prost::DecodeError>((tag as u32, wire as u8))
            &&& res.1@ == buf@.skip(n as int)
        },
        key_at(buf@) is None ==> res.0 is Err,
{
    let mut tail = buf;
    let key = match prost::encoding::decode_key(&mut tail) {
        Ok((tag, wire_type)) => Ok((tag, wire_type as u8)),
        Err(e) => Err(e),
    };
    (key, tail)
}

/// `prost::encoding::bytes::merge` of a length-delimited field into a `Vec<u8>`,
/// from a byte slice that starts after the field's key: on success the value is
/// replaced by the field's payload and the rest of the slice is returned; an
/// error, with the value untouched, exactly when no such payload is there.
#[verifier::external_body]
pub fn merge_bytes_field<'a>(wire: u8, value: &mut Vec<u8>, buf: &'a [u8]) -> (res: (
    Result<(), prost::DecodeError>,
    &'a [u8],
))
    requires
        wire <= 5,
    ensures
        bytes_field_at(wire as nat, buf@) matches Some((v, n)) ==> {
            &&& res.0 is Ok
            &&& final(value)@ == v
            &&& res.1@ == buf@.skip(n as int)
        },
        bytes_field_at(wire as nat, buf@) is None ==> res.0 is Err && final(value)@ == old(value)@,
{
    let wire_type = match prost::encoding::WireType::try_from(u64::from(wire)) {
        Ok(w) => w,
        Err(e) => return (Err(e), buf),
    };
    let mut tail = buf;
    let outcome = prost::encoding::bytes::merge(wire_type, value, &mut tail, Default::default());
    (outcome, tail)
}

/// `prost::encoding::skip_field` on a byte slice that starts after the key of an
/// unknown field: succeeds exactly when `skipped_field_len` gives a length, and
/// then returns the slice after that many bytes.
#[verifier::external_body]
pub fn skip_unknown_field<'a>(wire: u8, tag: u32, buf: &'a [u8]) -> (res: (
    Result<(), prost::DecodeError>,
    &'a [u8],
))
    requires
        wire <= 5,
    ensures
        skipped_field_len(wire, tag, buf@) is Some <==> res.0 is Ok,
        wire == 3 ==> (skipped_group_len(tag, buf@) is Some <==> res.0 is Ok),
        skipped_field_len(wire, tag, buf@) matches Some(n) ==> res.1@.len() + n == buf@.len() && res.1@
            == buf@.skip(n as int),
{
    let wire_type = match prost::encoding::WireType::try_from(u64::from(wire)) {
        Ok(w) => w,
        Err(e) => return (Err(e), buf),
    };
    let mut tail = buf;
    let outcome = prost::encoding::skip_field(wire_type, tag, &mut tail, Default::default());
    (outcome, tail)
}

} // verus!
