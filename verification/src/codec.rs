//! Reading and writing the wire format with `prost`.
use vstd::prelude::*;

use crate::fields;
use crate::fields::FieldStep;
use crate::error;
use crate::error::{DecodeErrorKind, Failure};
use crate::wire;
use crate::wire::WireType;

verus! {

/// `prost::DecodeError`: why `prost` could not decode. Nothing inside is looked at.
#[verifier::external_type_specification]
#[verifier::external_body]
pub struct ExDecodeError(prost::DecodeError);

// ---------------------------------------------------------------------------------------------
// Reading
// ---------------------------------------------------------------------------------------------

/// What is left of a buffer that does not start with a varint once it was tried to take one: all of it,
/// or nothing of at most ten bytes of which the last one says that more follow.
pub open spec fn after_no_varint(s: Seq<u8>) -> Seq<u8> {
    if 0 < s.len() <= 10 && s.last() >= 0x80 {
        Seq::empty()
    } else {
        s
    }
}

/// `prost::encoding::decode_varint`: takes the varint that the buffer starts with, or fails where
/// it does not start with one. Then it leaves the buffer as it is, or empty where it went through at most
/// ten bytes without finding an end.
#[verifier::external_body]
pub(crate) fn decode_varint(buf: &mut &[u8]) -> (r: Result<u64, prost::DecodeError>)
    ensures
        match wire::varint(old(buf)@) {
            Some((v, n)) => r == Ok::<u64, prost::DecodeError>(v) && final(buf)@ == old(buf)@.skip(
                n as int,
            ),
            None => r is Err && final(buf)@ == after_no_varint(old(buf)@),
        },
{
    prost::encoding::decode_varint(buf)
}

/// `prost::encoding::decode_key`: takes the key that the buffer starts with, or fails where it
/// does not start with one.
#[verifier::external_body]
pub(crate) fn decode_key(buf: &mut &[u8]) -> (r: Result<(u32, WireType), prost::DecodeError>)
    ensures
        match wire::key(old(buf)@) {
            Some((tag, wire_type, n)) => r == Ok::<(u32, WireType), prost::DecodeError>(
                (tag, wire_type),
            ) && final(buf)@ == old(buf)@.skip(n as int),
            None => r is Err,
        },
{
    let (tag, wire_type) = prost::encoding::decode_key(buf)?;
    let wire_type = match wire_type {
        prost::encoding::WireType::Varint => WireType::Varint,
        prost::encoding::WireType::SixtyFourBit => WireType::SixtyFourBit,
        prost::encoding::WireType::LengthDelimited => WireType::LengthDelimited,
        prost::encoding::WireType::StartGroup => WireType::StartGroup,
        prost::encoding::WireType::EndGroup => WireType::EndGroup,
        prost::encoding::WireType::ThirtyTwoBit => WireType::ThirtyTwoBit,
    };
    Ok((tag, wire_type))
}

/// `prost::encoding::skip_field` with a fresh context: takes the value of a field of the wire type,
/// groups nested no deeper than `prost` allows, or fails where the buffer does not start with one.
#[verifier::external_body]
pub(crate) fn skip_field(wire_type: WireType, tag: u32, buf: &mut &[u8]) -> (r: Result<
    (),
    prost::DecodeError,
>)
    ensures
        match wire::field_len(wire_type, tag, old(buf)@, wire::RECURSION_LIMIT as nat) {
            Some(n) => r is Ok && final(buf)@ == old(buf)@.skip(n as int),
            None => r is Err,
        },
{
    let wire_type = match wire_type {
        WireType::Varint => prost::encoding::WireType::Varint,
        WireType::SixtyFourBit => prost::encoding::WireType::SixtyFourBit,
        WireType::LengthDelimited => prost::encoding::WireType::LengthDelimited,
        WireType::StartGroup => prost::encoding::WireType::StartGroup,
        WireType::EndGroup => prost::encoding::WireType::EndGroup,
        WireType::ThirtyTwoBit => prost::encoding::WireType::ThirtyTwoBit,
    };
    prost::encoding::skip_field(wire_type, tag, buf, prost::encoding::DecodeContext::default())
}

/// `prost::encoding::uint64::merge` on a varint field: takes a varint, or fails where the buffer
/// does not start with one.
#[verifier::external_body]
pub(crate) fn merge_uint64(buf: &mut &[u8]) -> (r: Result<u64, prost::DecodeError>)
    ensures
        match wire::varint(old(buf)@) {
            Some((v, n)) => r == Ok::<u64, prost::DecodeError>(v) && final(buf)@ == old(buf)@.skip(
                n as int,
            ),
            None => r is Err,
        },
{
    let mut value = 0u64;
    let ctx = prost::encoding::DecodeContext::default();
    prost::encoding::uint64::merge(prost::encoding::WireType::Varint, &mut value, buf, ctx)?;
    Ok(value)
}

/// `prost::encoding::bool::merge` on a varint field: takes a varint and tells whether it is not
/// zero, or fails where the buffer does not start with one.
#[verifier::external_body]
pub(crate) fn merge_bool(buf: &mut &[u8]) -> (r: Result<bool, prost::DecodeError>)
    ensures
        match wire::varint(old(buf)@) {
            Some((v, n)) => r == Ok::<bool, prost::DecodeError>(v != 0) && final(buf)@ == old(
                buf,
            )@.skip(n as int),
            None => r is Err,
        },
{
    let mut value = false;
    let ctx = prost::encoding::DecodeContext::default();
    prost::encoding::bool::merge(prost::encoding::WireType::Varint, &mut value, buf, ctx)?;
    Ok(value)
}

/// `prost::encoding::int32::merge` on a varint field: takes a varint and keeps its low 32 bits, or
/// fails where the buffer does not start with one.
#[verifier::external_body]
pub(crate) fn merge_int32(buf: &mut &[u8]) -> (r: Result<i32, prost::DecodeError>)
    ensures
        match wire::varint(old(buf)@) {
            Some((v, n)) => r == Ok::<i32, prost::DecodeError>(v as i32) && final(buf)@ == old(
                buf,
            )@.skip(n as int),
            None => r is Err,
        },
{
    let mut value = 0i32;
    let ctx = prost::encoding::DecodeContext::default();
    prost::encoding::int32::merge(prost::encoding::WireType::Varint, &mut value, buf, ctx)?;
    Ok(value)
}

/// A point in time: seconds since the epoch, and nanoseconds.
#[derive(Debug, Clone, Copy, PartialEq, Eq, Structural)]
pub struct Timestamp {
    pub seconds: i64,
    pub nanos: i32,
}

/// The epoch.
pub open spec fn timestamp_zero() -> Timestamp {
    Timestamp { seconds: 0, nanos: 0 }
}

/// The fields of a timestamp.
pub struct TimestampFields;

impl FieldStep for TimestampFields {
    type M = Timestamp;

    open spec fn step(m: Timestamp, tag: u32, wire_type: WireType, rest: Seq<u8>, at: nat) -> Result<
        (Timestamp, nat),
        Failure,
    > {
        if tag == 1 || tag == 2 {
            if wire_type != WireType::Varint {
                Err(error::failure(DecodeErrorKind::UnexpectedWireType))
            } else {
                match wire::varint(rest) {
                    Some((v, n)) => if tag == 1 {
                        Ok((Timestamp { seconds: v as i64, ..m }, n))
                    } else {
                        Ok((Timestamp { nanos: v as i32, ..m }, n))
                    },
                    None => Err(error::failure(DecodeErrorKind::InvalidVarint)),
                }
            }
        } else {
            match wire::field_len(wire_type, tag, rest, (wire::RECURSION_LIMIT - 1) as nat) {
                Some(n) => Ok((m, n)),
                None => Err(error::failure(DecodeErrorKind::InvalidField)),
            }
        }
    }

    proof fn lemma_step_bounds(m: Timestamp, tag: u32, wire_type: WireType, rest: Seq<u8>, at: nat) {
        wire::lemma_varint_bounds(rest);
        wire::lemma_field_len_bounds(wire_type, tag, rest, (wire::RECURSION_LIMIT - 1) as nat);
    }
}

/// The timestamp `m` after the length-delimited one that `s` starts with, and the length of that.
pub open spec fn timestamp(m: Timestamp, s: Seq<u8>) -> Option<(Timestamp, nat)> {
    match wire::varint(s) {
        Some((len, n)) => if n + len <= s.len() {
            match fields::fields::<TimestampFields>(
                m,
                s.skip(n as int),
                n,
                (s.len() - n - len) as nat,
            ) {
                Ok((m1, k)) => if k == len {
                    Some((m1, n + k))
                } else {
                    None
                },
                Err(_) => None,
            }
        } else {
            None
        },
        None => None,
    }
}

/// A timestamp lies within the bytes that it was read from.
pub proof fn lemma_timestamp_bounds(m: Timestamp, s: Seq<u8>)
    ensures
        timestamp(m, s) matches Some((_, n)) ==> n <= s.len(),
{
    wire::lemma_varint_bounds(s);
}

/// The fields of `ts`, those that are zero left out.
pub open spec fn timestamp_bytes(ts: Timestamp) -> Seq<u8> {
    wire::varint_field_opt(1, ts.seconds as u64) + wire::varint_field_opt(2, ts.nanos as u64)
}

/// `prost::encoding::message::merge` on a length-delimited `prost_types::Timestamp`: takes a length
/// prefix and the fields of a timestamp that it counts, which replace those of `ts`; or fails where
/// the buffer does not start with these.
#[verifier::external_body]
pub(crate) fn merge_timestamp(ts: Timestamp, buf: &mut &[u8]) -> (r: Result<
    Timestamp,
    prost::DecodeError,
>)
    ensures
        match timestamp(ts, old(buf)@) {
            Some((ts1, n)) => r == Ok::<Timestamp, prost::DecodeError>(ts1) && final(buf)@ == old(
                buf,
            )@.skip(n as int),
            None => r is Err,
        },
{
    let wire_type = prost::encoding::WireType::LengthDelimited;
    let mut value = prost_types::Timestamp { seconds: ts.seconds, nanos: ts.nanos };
    let ctx = prost::encoding::DecodeContext::default();
    prost::encoding::message::merge(wire_type, &mut value, buf, ctx)?;
    Ok(Timestamp { seconds: value.seconds, nanos: value.nanos })
}

// ---------------------------------------------------------------------------------------------
// Writing
// ---------------------------------------------------------------------------------------------

/// `prost::encoding::encode_varint`: appends the shortest varint of the value.
#[verifier::external_body]
pub(crate) fn encode_varint(value: u64, buf: &mut Vec<u8>)
    ensures
        final(buf)@ == old(buf)@ + wire::varint_bytes(value as nat),
{
    prost::encoding::encode_varint(value, buf)
}

/// `prost::encoding::encoded_len_varint`: the length of the shortest varint of the value.
#[verifier::external_body]
pub(crate) fn encoded_len_varint(value: u64) -> (r: usize)
    ensures
        r == wire::varint_bytes(value as nat).len(),
{
    prost::encoding::encoded_len_varint(value)
}

/// `prost::encoding::encode_key`: appends the key of a field.
#[verifier::external_body]
pub(crate) fn encode_key(tag: u32, wire_type: WireType, buf: &mut Vec<u8>)
    requires
        1 <= tag <= wire::MAX_TAG,
    ensures
        final(buf)@ == old(buf)@ + wire::key_bytes(tag, wire_type),
{
    let wire_type = match wire_type {
        WireType::Varint => prost::encoding::WireType::Varint,
        WireType::SixtyFourBit => prost::encoding::WireType::SixtyFourBit,
        WireType::LengthDelimited => prost::encoding::WireType::LengthDelimited,
        WireType::StartGroup => prost::encoding::WireType::StartGroup,
        WireType::EndGroup => prost::encoding::WireType::EndGroup,
        WireType::ThirtyTwoBit => prost::encoding::WireType::ThirtyTwoBit,
    };
    prost::encoding::encode_key(tag, wire_type, buf)
}

/// `prost::encoding::key_len`: the length of the key of a varint field with the tag.
#[verifier::external_body]
pub(crate) fn key_len(tag: u32) -> (r: usize)
    requires
        1 <= tag <= wire::MAX_TAG,
    ensures
        r == wire::key_bytes(tag, WireType::Varint).len(),
{
    prost::encoding::key_len(tag)
}

/// `prost::encoding::message::encode` of a `prost_types::Timestamp`: appends the timestamp as a
/// length-delimited field.
#[verifier::external_body]
pub(crate) fn encode_timestamp(tag: u32, ts: Timestamp, buf: &mut Vec<u8>)
    requires
        1 <= tag <= wire::MAX_TAG,
    ensures
        final(buf)@ == old(buf)@ + wire::bytes_field(tag, timestamp_bytes(ts)),
{
    let value = prost_types::Timestamp { seconds: ts.seconds, nanos: ts.nanos };
    prost::encoding::message::encode(tag, &value, buf)
}

/// `prost::encoding::message::encoded_len` of a `prost_types::Timestamp`: the length of the
/// timestamp as a length-delimited field.
#[verifier::external_body]
pub(crate) fn encoded_len_timestamp(tag: u32, ts: Timestamp) -> (r: usize)
    requires
        1 <= tag <= wire::MAX_TAG,
    ensures
        r == wire::bytes_field(tag, timestamp_bytes(ts)).len(),
{
    let value = prost_types::Timestamp { seconds: ts.seconds, nanos: ts.nanos };
    prost::encoding::message::encoded_len(tag, &value)
}

} // verus!
