//! Decoders that take from an update only what filters look at.
//!
//! A limited decoder does not copy what it does not need: it keeps the place of a field in the
//! buffer and leaves the bytes where they are.
use std::ops::Range;

use vstd::prelude::*;

use crate::codec;
use crate::codec::Timestamp;
use crate::error;
use crate::error::{DecodeErrorKind, Failure, WireError};
use crate::fields;
use crate::fields::{FieldStep, Merge};
use crate::pubkey;
use crate::pubkey::{Epoch, Pubkey, PubkeySet, Slot};
use crate::wire;
use crate::wire::WireType;

verus! {

// ---------------------------------------------------------------------------------------------
// Values of fields
// ---------------------------------------------------------------------------------------------

/// A run of bytes of a buffer.
pub ghost struct Span {
    pub start: nat,
    pub end: nat,
}

/// The run of bytes that `range` stands for.
pub open spec fn span(range: Range<usize>) -> Span {
    Span { start: range.start as nat, end: range.end as nat }
}

/// The run of bytes that `range` stands for, if there is one.
pub open spec fn span_opt(range: Option<Range<usize>>) -> Option<Span> {
    match range {
        Some(r) => Some(span(r)),
        None => None,
    }
}

/// The place that `offset` stands for, if there is one.
pub open spec fn place_opt(offset: Option<usize>) -> Option<nat> {
    match offset {
        Some(o) => Some(o as nat),
        None => None,
    }
}

/// The bytes that a length prefix at the start of `rest` counts, and the length of both.
pub open spec fn delimited_at(rest: Seq<u8>, at: nat) -> Result<(Span, nat), DecodeErrorKind> {
    match wire::varint(rest) {
        None => Err(DecodeErrorKind::InvalidVarint),
        Some((len, n)) => if len > rest.len() - n {
            Err(DecodeErrorKind::BufferUnderflow)
        } else {
            Ok((Span { start: at + n, end: at + n + len as nat }, n + len as nat))
        },
    }
}

/// A failure of a delimited value: only an underflow names the field.
pub open spec fn delimited_failure(
    kind: DecodeErrorKind,
    message: &'static str,
    field: &'static str,
) -> Failure {
    if kind == DecodeErrorKind::BufferUnderflow {
        error::failure_in(kind, message, field)
    } else {
        error::failure(kind)
    }
}

/// The delimited value of a field.
pub open spec fn span_value(
    wire_type: WireType,
    rest: Seq<u8>,
    at: nat,
    message: &'static str,
    field: &'static str,
) -> Result<(Span, nat), Failure> {
    if wire_type != WireType::LengthDelimited {
        Err(error::failure(DecodeErrorKind::UnexpectedWireType))
    } else {
        match delimited_at(rest, at) {
            Ok(v) => Ok(v),
            Err(kind) => Err(delimited_failure(kind, message, field)),
        }
    }
}

/// The delimited value of a field that has to be `len` bytes long.
pub open spec fn sized_value(
    wire_type: WireType,
    rest: Seq<u8>,
    at: nat,
    len: nat,
    otherwise: DecodeErrorKind,
    message: &'static str,
    field: &'static str,
) -> Result<(Span, nat), Failure> {
    match span_value(wire_type, rest, at, message, field) {
        Ok((sp, n)) => if sp.end - sp.start != len {
            Err(error::failure_in(otherwise, message, field))
        } else {
            Ok((sp, n))
        },
        Err(e) => Err(e),
    }
}

/// The public key that is the value of a field.
pub open spec fn pubkey_value(
    wire_type: WireType,
    rest: Seq<u8>,
    message: &'static str,
    field: &'static str,
) -> Result<(Seq<u8>, nat), Failure> {
    match sized_value(
        wire_type,
        rest,
        0,
        32,
        DecodeErrorKind::InvalidPubkeyLength,
        message,
        field,
    ) {
        Ok((sp, n)) => Ok((rest.subrange(sp.start as int, sp.end as int), n)),
        Err(e) => Err(e),
    }
}

/// The place of the signature that is the value of a field.
pub open spec fn signature_value(
    wire_type: WireType,
    rest: Seq<u8>,
    at: nat,
    message: &'static str,
    field: &'static str,
) -> Result<(nat, nat), Failure> {
    match sized_value(
        wire_type,
        rest,
        at,
        64,
        DecodeErrorKind::InvalidSignatureLength,
        message,
        field,
    ) {
        Ok((sp, n)) => Ok((sp.start, n)),
        Err(e) => Err(e),
    }
}

/// The varint that is the value of a field.
pub open spec fn varint_value(
    wire_type: WireType,
    rest: Seq<u8>,
    message: &'static str,
    field: &'static str,
) -> Result<(u64, nat), Failure> {
    if wire_type != WireType::Varint {
        Err(error::failure_in(DecodeErrorKind::UnexpectedWireType, message, field))
    } else {
        match wire::varint(rest) {
            Some((v, n)) => Ok((v, n)),
            None => Err(error::failure_in(DecodeErrorKind::InvalidVarint, message, field)),
        }
    }
}

/// The length of a field that is not looked at.
pub open spec fn skipped(wire_type: WireType, tag: u32, rest: Seq<u8>) -> Result<nat, Failure> {
    match wire::field_len(wire_type, tag, rest, wire::RECURSION_LIMIT as nat) {
        Some(n) => Ok(n),
        None => Err(error::failure(DecodeErrorKind::InvalidField)),
    }
}

/// How many of the fields that the bytes hold, one after the other, have a tag from `first` to `last`.
pub open spec fn fields_among(s: Seq<u8>, first: u32, last: u32) -> nat
    decreases s.len(),
{
    match wire::key(s) {
        None => 0,
        Some((tag, wire_type, n)) => match skipped(wire_type, tag, s.skip(n as int)) {
            Err(_) => 0,
            Ok(k) => if 1 <= n && n + k <= s.len() {
                (if first <= tag <= last {
                    1nat
                } else {
                    0
                }) + fields_among(s.skip((n + k) as int), first, last)
            } else {
                0
            },
        },
    }
}

/// Values lie within the bytes that they were read from.
pub proof fn lemma_value_bounds(wire_type: WireType, tag: u32, rest: Seq<u8>, at: nat)
    ensures
        delimited_at(rest, at) matches Ok((sp, n)) ==> {
            &&& n <= rest.len()
            &&& at <= sp.start <= sp.end
            &&& sp.end == at + n
        },
        wire::varint(rest) matches Some((_, n)) ==> 1 <= n <= rest.len(),
        wire::field_len(wire_type, tag, rest, wire::RECURSION_LIMIT as nat) matches Some(n) ==> n
            <= rest.len(),
        wire::field_len(
            WireType::LengthDelimited,
            tag,
            rest,
            wire::RECURSION_LIMIT as nat,
        ) matches Some(n) ==> n <= rest.len(),
{
    wire::lemma_varint_bounds(rest);
    wire::lemma_field_len_bounds(wire_type, tag, rest, wire::RECURSION_LIMIT as nat);
    wire::lemma_field_len_bounds(
        WireType::LengthDelimited,
        tag,
        rest,
        wire::RECURSION_LIMIT as nat,
    );
}

/// Leaves the first `n` bytes behind.
fn advance(buf: &mut &[u8], n: usize)
    requires
        n <= old(buf)@.len(),
    ensures
        final(buf)@ == old(buf)@.skip(n as int),
{
    let rest: &[u8] = *buf;
    *buf = vstd::slice::slice_subrange(rest, n, rest.len());
}

/// What is left of a buffer that does not start with a length prefix and as many bytes as it counts, once
/// it was tried to take these: where there is a length prefix, what follows it.
pub open spec fn after_no_span(s: Seq<u8>) -> Seq<u8> {
    match wire::varint(s) {
        Some((_, n)) => s.skip(n as int),
        None => codec::after_no_varint(s),
    }
}

/// Takes a length prefix and the bytes that it counts.
pub(crate) fn take_span(buf: &mut &[u8], buf_len: usize) -> (r: Result<Range<usize>, DecodeErrorKind>)
    requires
        old(buf)@.len() <= buf_len,
    ensures
        match delimited_at(old(buf)@, (buf_len - old(buf)@.len()) as nat) {
            Ok((sp, n)) => r is Ok && span(r->Ok_0) == sp && final(buf)@ == old(buf)@.skip(
                n as int,
            ),
            Err(kind) => r == Err::<Range<usize>, DecodeErrorKind>(kind) && final(buf)@
                == after_no_span(old(buf)@),
        },
{
    let ghost s = buf@;
    proof {
        wire::lemma_varint_bounds(s);
    }
    let len: u64 = match codec::decode_varint(buf) {
        Ok(len) => len,
        Err(_) => return Err(DecodeErrorKind::InvalidVarint),
    };
    if len > buf.len() as u64 {
        return Err(DecodeErrorKind::BufferUnderflow);
    }
    let start: usize = buf_len - buf.len();
    advance(buf, len as usize);
    let end: usize = buf_len - buf.len();
    proof {
        let n = wire::varint(s)->Some_0.1;
        assert(s.skip(n as int).skip(len as int) =~= s.skip(n + len));
    }
    Ok(Range { start, end })
}

/// Takes the delimited value of a field.
fn span_field(
    wire_type: WireType,
    buf: &mut &[u8],
    buf_len: usize,
    message: &'static str,
    field: &'static str,
) -> (r: Result<Range<usize>, WireError>)
    requires
        old(buf)@.len() <= buf_len,
    ensures
        match span_value(
            wire_type,
            old(buf)@,
            (buf_len - old(buf)@.len()) as nat,
            message,
            field,
        ) {
            Ok((sp, n)) => r is Ok && span(r->Ok_0) == sp && final(buf)@ == old(buf)@.skip(
                n as int,
            ),
            Err(e) => r is Err && r->Err_0@ == e,
        },
{
    if wire_type != WireType::LengthDelimited {
        return Err(error::create_decode_error(DecodeErrorKind::UnexpectedWireType));
    }
    match take_span(buf, buf_len) {
        Ok(range) => Ok(range),
        Err(kind) => if kind == DecodeErrorKind::BufferUnderflow {
            Err(error::decode_error(kind, message, field))
        } else {
            Err(error::create_decode_error(kind))
        },
    }
}

/// Takes the public key that is the value of a field.
fn decode_pubkey(
    wire_type: WireType,
    buf: &mut &[u8],
    message: &'static str,
    field: &'static str,
) -> (r: Result<Pubkey, WireError>)
    ensures
        match pubkey_value(wire_type, old(buf)@, message, field) {
            Ok((p, n)) => r is Ok && r->Ok_0@ == p && final(buf)@ == old(buf)@.skip(n as int),
            Err(e) => r is Err && r->Err_0@ == e,
        },
{
    let whole: &[u8] = *buf;
    proof {
        lemma_value_bounds(wire_type, 0, whole@, 0);
    }
    let buf_len: usize = whole.len();
    let range = match span_field(wire_type, buf, buf_len, message, field) {
        Ok(range) => range,
        Err(e) => return Err(e),
    };
    let bytes: &[u8] = vstd::slice::slice_subrange(whole, range.start, range.end);
    match Pubkey::from_slice(bytes) {
        Some(pubkey) => Ok(pubkey),
        None => Err(error::decode_error(DecodeErrorKind::InvalidPubkeyLength, message, field)),
    }
}

/// Takes the signature that is the value of a field, and tells its place.
fn signature_field(
    wire_type: WireType,
    buf: &mut &[u8],
    buf_len: usize,
    message: &'static str,
    field: &'static str,
) -> (r: Result<usize, WireError>)
    requires
        old(buf)@.len() <= buf_len,
    ensures
        match signature_value(
            wire_type,
            old(buf)@,
            (buf_len - old(buf)@.len()) as nat,
            message,
            field,
        ) {
            Ok((place, n)) => r is Ok && r->Ok_0 == place && final(buf)@ == old(buf)@.skip(
                n as int,
            ),
            Err(e) => r is Err && r->Err_0@ == e,
        },
{
    proof {
        lemma_value_bounds(wire_type, 0, buf@, (buf_len - buf@.len()) as nat);
    }
    let range = match span_field(wire_type, buf, buf_len, message, field) {
        Ok(range) => range,
        Err(e) => return Err(e),
    };
    if range.end - range.start != pubkey::SIGNATURE_BYTES {
        return Err(error::decode_error(DecodeErrorKind::InvalidSignatureLength, message, field));
    }
    Ok(range.start)
}

/// Takes the varint that is the value of a field.
fn uint64_field(
    wire_type: WireType,
    buf: &mut &[u8],
    message: &'static str,
    field: &'static str,
) -> (r: Result<u64, WireError>)
    ensures
        match varint_value(wire_type, old(buf)@, message, field) {
            Ok((v, n)) => r is Ok && r->Ok_0 == v && final(buf)@ == old(buf)@.skip(n as int),
            Err(e) => r is Err && r->Err_0@ == e,
        },
{
    if wire_type != WireType::Varint {
        return Err(error::decode_error(DecodeErrorKind::UnexpectedWireType, message, field));
    }
    match codec::merge_uint64(buf) {
        Ok(v) => Ok(v),
        Err(_) => Err(error::decode_error(DecodeErrorKind::InvalidVarint, message, field)),
    }
}

/// Takes the flag that is the value of a field.
fn bool_field(
    wire_type: WireType,
    buf: &mut &[u8],
    message: &'static str,
    field: &'static str,
) -> (r: Result<bool, WireError>)
    ensures
        match varint_value(wire_type, old(buf)@, message, field) {
            Ok((v, n)) => r is Ok && r->Ok_0 == (v != 0) && final(buf)@ == old(buf)@.skip(
                n as int,
            ),
            Err(e) => r is Err && r->Err_0@ == e,
        },
{
    if wire_type != WireType::Varint {
        return Err(error::decode_error(DecodeErrorKind::UnexpectedWireType, message, field));
    }
    match codec::merge_bool(buf) {
        Ok(v) => Ok(v),
        Err(_) => Err(error::decode_error(DecodeErrorKind::InvalidVarint, message, field)),
    }
}

/// Takes the 32-bit number that is the value of a field.
fn int32_field(
    wire_type: WireType,
    buf: &mut &[u8],
    message: &'static str,
    field: &'static str,
) -> (r: Result<i32, WireError>)
    ensures
        match varint_value(wire_type, old(buf)@, message, field) {
            Ok((v, n)) => r is Ok && r->Ok_0 == v as i32 && final(buf)@ == old(buf)@.skip(n as int),
            Err(e) => r is Err && r->Err_0@ == e,
        },
{
    if wire_type != WireType::Varint {
        return Err(error::decode_error(DecodeErrorKind::UnexpectedWireType, message, field));
    }
    match codec::merge_int32(buf) {
        Ok(v) => Ok(v),
        Err(_) => Err(error::decode_error(DecodeErrorKind::InvalidVarint, message, field)),
    }
}

/// Leaves a field behind.
pub(crate) fn skip(wire_type: WireType, tag: u32, buf: &mut &[u8]) -> (r: Result<(), WireError>)
    ensures
        match skipped(wire_type, tag, old(buf)@) {
            Ok(n) => r is Ok && final(buf)@ == old(buf)@.skip(n as int),
            Err(e) => r is Err && r->Err_0@ == e,
        },
{
    match codec::skip_field(wire_type, tag, buf) {
        Ok(()) => Ok(()),
        Err(_) => Err(error::create_decode_error(DecodeErrorKind::InvalidField)),
    }
}

// ---------------------------------------------------------------------------------------------
// Decoders
// ---------------------------------------------------------------------------------------------

/// A message that is decoded field by field.
pub trait LimitedDecode: Merge<Target = Self> {
    /// The message without any field.
    spec fn empty() -> Self::M;

    /// The message without any field.
    fn default_message() -> (r: Self)
        ensures
            Self::model(&r) == Self::empty(),
    ;

    /// Decodes a message.
    fn decode(buf: &[u8]) -> (r: Result<Self, WireError>)
        ensures
            match fields::all_fields::<Self>(Self::empty(), buf@) {
                Ok(m) => r is Ok && Self::model(&r->Ok_0) == m,
                Err(e) => r is Err && r->Err_0@ == e,
            },
    {
        let mut rest: &[u8] = buf;
        let buf_len: usize = buf.len();
        let mut message = Self::default_message();
        match fields::merge_loop::<Self>(&mut message, &mut rest, buf_len, 0) {
            Ok(()) => Ok(message),
            Err(e) => Err(e),
        }
    }
}

/// The update of an envelope: its tag, and the place of its bytes.
#[derive(Debug)]
pub enum UpdateOneofLimitedDecode {
    Account(Range<usize>),
    Slot(Range<usize>),
    Transaction(Range<usize>),
    TransactionStatus(Range<usize>),
    Block(Range<usize>),
    Ping(Range<usize>),
    Pong(Range<usize>),
    BlockMeta(Range<usize>),
    Entry(Range<usize>),
}

/// Whether `tag` is that of an update.
pub open spec fn is_update_tag(tag: u32) -> bool {
    2 <= tag <= 10
}

/// The tag of an update, and the place of its bytes.
pub open spec fn oneof_model(field: Option<UpdateOneofLimitedDecode>) -> Option<(u32, Span)> {
    match field {
        None => None,
        Some(UpdateOneofLimitedDecode::Account(r)) => Some((2, span(r))),
        Some(UpdateOneofLimitedDecode::Slot(r)) => Some((3, span(r))),
        Some(UpdateOneofLimitedDecode::Transaction(r)) => Some((4, span(r))),
        Some(UpdateOneofLimitedDecode::TransactionStatus(r)) => Some((10, span(r))),
        Some(UpdateOneofLimitedDecode::Block(r)) => Some((5, span(r))),
        Some(UpdateOneofLimitedDecode::Ping(r)) => Some((6, span(r))),
        Some(UpdateOneofLimitedDecode::Pong(r)) => Some((9, span(r))),
        Some(UpdateOneofLimitedDecode::BlockMeta(r)) => Some((7, span(r))),
        Some(UpdateOneofLimitedDecode::Entry(r)) => Some((8, span(r))),
    }
}

/// The update `m` after one with `tag`. Another update takes its place; the same one is an error.
pub open spec fn oneof_merge(m: Option<(u32, Span)>, tag: u32, rest: Seq<u8>, at: nat) -> Result<
    (Option<(u32, Span)>, nat),
    Failure,
> {
    match delimited_at(rest, at) {
        Err(kind) => Err(error::failure(kind)),
        Ok((sp, n)) => if m is Some && m->Some_0.0 == tag {
            Err(error::failure(DecodeErrorKind::MergeNotSupported))
        } else {
            Ok((Some((tag, sp)), n))
        },
    }
}

impl UpdateOneofLimitedDecode {
    /// Takes the update with `tag` from the buffer, which is what is left of `buf_len` bytes. Where the
    /// buffer does not start with the bytes of an update, the tag does not matter. What fails leaves the
    /// field as it is; where it fails for want of bytes, none of them is taken but those of the length
    /// prefix.
    pub fn merge(field: &mut Option<Self>, tag: u32, buf: &mut &[u8], buf_len: usize) -> (r: Result<
        (),
        WireError,
    >)
        requires
            is_update_tag(tag) || delimited_at(old(buf)@, 0) is Err,
            old(buf)@.len() <= buf_len,
        ensures
            match oneof_merge(
                oneof_model(*old(field)),
                tag,
                old(buf)@,
                (buf_len - old(buf)@.len()) as nat,
            ) {
                Ok((m, n)) => {
                    &&& r is Ok
                    &&& oneof_model(*final(field)) == m
                    &&& final(buf)@ == old(buf)@.skip(n as int)
                },
                Err(e) => {
                    &&& r is Err
                    &&& r->Err_0@ == e
                    &&& *final(field) == *old(field)
                    &&& final(buf)@ == match delimited_at(old(buf)@, 0) {
                        Ok((_, n)) => old(buf)@.skip(n as int),
                        Err(_) => after_no_span(old(buf)@),
                    }
                },
            },
    {
        let range = match take_span(buf, buf_len) {
            Ok(range) => range,
            Err(kind) => return Err(error::create_decode_error(kind)),
        };
        let again: bool = match field {
            None => false,
            Some(UpdateOneofLimitedDecode::Account(_)) => tag == 2,
            Some(UpdateOneofLimitedDecode::Slot(_)) => tag == 3,
            Some(UpdateOneofLimitedDecode::Transaction(_)) => tag == 4,
            Some(UpdateOneofLimitedDecode::TransactionStatus(_)) => tag == 10,
            Some(UpdateOneofLimitedDecode::Block(_)) => tag == 5,
            Some(UpdateOneofLimitedDecode::Ping(_)) => tag == 6,
            Some(UpdateOneofLimitedDecode::Pong(_)) => tag == 9,
            Some(UpdateOneofLimitedDecode::BlockMeta(_)) => tag == 7,
            Some(UpdateOneofLimitedDecode::Entry(_)) => tag == 8,
        };
        if again {
            return Err(error::create_decode_error(DecodeErrorKind::MergeNotSupported));
        }
        let update = match tag {
            2 => UpdateOneofLimitedDecode::Account(range),
            3 => UpdateOneofLimitedDecode::Slot(range),
            4 => UpdateOneofLimitedDecode::Transaction(range),
            5 => UpdateOneofLimitedDecode::Block(range),
            6 => UpdateOneofLimitedDecode::Ping(range),
            7 => UpdateOneofLimitedDecode::BlockMeta(range),
            8 => UpdateOneofLimitedDecode::Entry(range),
            9 => UpdateOneofLimitedDecode::Pong(range),
            _ => UpdateOneofLimitedDecode::TransactionStatus(range),
        };
        *field = Some(update);
        Ok(())
    }
}

/// The envelope of an update.
#[derive(Debug)]
pub struct SubscribeUpdateLimitedDecode {
    pub update_oneof: Option<UpdateOneofLimitedDecode>,
    pub created_at: Option<Timestamp>,
    /// Whether there is an update of the kinds that only Richat streams carry, tags `100+`.
    pub richat_update: bool,
}

/// The envelope of an update.
pub ghost struct UpdateModel {
    pub update: Option<(u32, Span)>,
    pub created_at: Option<Timestamp>,
    pub richat_update: bool,
}

pub const SUBSCRIBE_UPDATE: &'static str = "SubscribeUpdateLimitedDecode";

impl FieldStep for SubscribeUpdateLimitedDecode {
    type M = UpdateModel;

    open spec fn step(
        m: UpdateModel,
        tag: u32,
        wire_type: WireType,
        rest: Seq<u8>,
        at: nat,
    ) -> Result<
        (UpdateModel, nat),
        Failure,
    > {
        if wire_type != WireType::LengthDelimited {
            Err(error::failure(DecodeErrorKind::UnexpectedWireType))
        } else if tag == 1 {
            match span_value(wire_type, rest, at, SUBSCRIBE_UPDATE, "filters") {
                Ok((_, n)) => Ok((m, n)),
                Err(e) => Err(e),
            }
        } else if is_update_tag(tag) {
            match oneof_merge(m.update, tag, rest, at) {
                Ok((update, n)) => Ok((UpdateModel { update, ..m }, n)),
                Err(e) => Err(error::within(e, SUBSCRIBE_UPDATE, "update_oneof")),
            }
        } else if tag == 11 {
            let before = match m.created_at {
                Some(ts) => ts,
                None => codec::timestamp_zero(),
            };
            match codec::timestamp(before, rest) {
                Some((ts, n)) => Ok((UpdateModel { created_at: Some(ts), ..m }, n)),
                None => Err(
                    error::failure_in(
                        DecodeErrorKind::InvalidTimestamp,
                        SUBSCRIBE_UPDATE,
                        "created_at",
                    ),
                ),
            }
        } else {
            match skipped(WireType::LengthDelimited, tag, rest) {
                Ok(n) => Ok(
                    (
                        UpdateModel {
                            richat_update: m.richat_update || 100 <= tag <= 105,
                            ..m
                        },
                        n,
                    ),
                ),
                Err(e) => Err(e),
            }
        }
    }

    proof fn lemma_step_bounds(
        m: UpdateModel,
        tag: u32,
        wire_type: WireType,
        rest: Seq<u8>,
        at: nat,
    ) {
        lemma_value_bounds(wire_type, tag, rest, at);
        codec::lemma_timestamp_bounds(
            match m.created_at {
                Some(ts) => ts,
                None => codec::timestamp_zero(),
            },
            rest,
        );
    }
}

impl Merge for SubscribeUpdateLimitedDecode {
    type Target = SubscribeUpdateLimitedDecode;

    open spec fn model(target: &SubscribeUpdateLimitedDecode) -> UpdateModel {
        UpdateModel {
            update: oneof_model(target.update_oneof),
            created_at: target.created_at,
            richat_update: target.richat_update,
        }
    }

    open spec fn at_once(tag: u32) -> bool {
        !(100 <= tag <= 105)
    }

    fn merge_field(
        target: &mut SubscribeUpdateLimitedDecode,
        tag: u32,
        wire_type: WireType,
        buf: &mut &[u8],
        buf_len: usize,
    ) -> (r: Result<(), WireError>) {
        if wire_type != WireType::LengthDelimited {
            return Err(error::create_decode_error(DecodeErrorKind::UnexpectedWireType));
        }
        if tag == 1 {
            match span_field(wire_type, buf, buf_len, SUBSCRIBE_UPDATE, "filters") {
                Ok(_) => Ok(()),
                Err(e) => Err(e),
            }
        } else if 2 <= tag && tag <= 10 {
            match UpdateOneofLimitedDecode::merge(&mut target.update_oneof, tag, buf, buf_len) {
                Ok(()) => Ok(()),
                Err(e) => {
                    let mut e = e;
                    e.push(SUBSCRIBE_UPDATE, "update_oneof");
                    Err(e)
                },
            }
        } else if tag == 11 {
            let before = match target.created_at {
                Some(ts) => ts,
                None => Timestamp { seconds: 0, nanos: 0 },
            };
            match codec::merge_timestamp(before, buf) {
                Ok(ts) => {
                    target.created_at = Some(ts);
                    Ok(())
                },
                Err(_) => Err(
                    error::decode_error(
                        DecodeErrorKind::InvalidTimestamp,
                        SUBSCRIBE_UPDATE,
                        "created_at",
                    ),
                ),
            }
        } else {
            if 100 <= tag && tag <= 105 {
                target.richat_update = true;
            }
            skip(WireType::LengthDelimited, tag, buf)
        }
    }
}

impl LimitedDecode for SubscribeUpdateLimitedDecode {
    open spec fn empty() -> UpdateModel {
        UpdateModel { update: None, created_at: None, richat_update: false }
    }

    fn default_message() -> (r: Self) {
        SubscribeUpdateLimitedDecode { update_oneof: None, created_at: None, richat_update: false }
    }
}

/// An account update: what filters look at, and the places of the rest.
#[derive(Debug)]
pub struct UpdateOneofLimitedDecodeAccount {
    /// The place of the length prefix of the account, `usize::MAX` where there is no account.
    pub account: usize,
    pub pubkey: Pubkey,
    pub owner: Pubkey,
    pub lamports: u64,
    pub executable: bool,
    pub rent_epoch: Epoch,
    pub data: Range<usize>,
    pub txn_signature_offset: Option<usize>,
    /// The place of the write version, `usize::MAX` where there is none.
    pub write_version: usize,
    pub slot: Slot,
    pub is_startup: bool,
}

/// An account update.
pub ghost struct AccountModel {
    pub account: nat,
    pub pubkey: Seq<u8>,
    pub owner: Seq<u8>,
    pub lamports: u64,
    pub executable: bool,
    pub rent_epoch: u64,
    pub data: Span,
    pub txn_signature: Option<nat>,
    pub write_version: Option<nat>,
    pub slot: u64,
    pub is_startup: bool,
}

/// The place that `x` is, where it does not mark that there is none.
pub open spec fn mark_opt(x: usize) -> Option<nat> {
    if x == usize::MAX {
        None
    } else {
        Some(x as nat)
    }
}

/// What an account decoder holds.
pub open spec fn account_model(target: &UpdateOneofLimitedDecodeAccount) -> AccountModel {
    AccountModel {
        account: target.account as nat,
        pubkey: target.pubkey@,
        owner: target.owner@,
        lamports: target.lamports,
        executable: target.executable,
        rent_epoch: target.rent_epoch,
        data: span(target.data),
        txn_signature: place_opt(target.txn_signature_offset),
        write_version: mark_opt(target.write_version),
        slot: target.slot,
        is_startup: target.is_startup,
    }
}

pub const ACCOUNT: &'static str = "UpdateOneofLimitedDecodeAccount";

/// The fields of the account in an account update.
pub struct AccountInfoFields;

impl FieldStep for AccountInfoFields {
    type M = AccountModel;

    open spec fn step(
        m: AccountModel,
        tag: u32,
        wire_type: WireType,
        rest: Seq<u8>,
        at: nat,
    ) -> Result<
        (AccountModel, nat),
        Failure,
    > {
        if tag == 1 {
            match pubkey_value(wire_type, rest, ACCOUNT, "pubkey") {
                Ok((v, n)) => Ok((AccountModel { pubkey: v, ..m }, n)),
                Err(e) => Err(e),
            }
        } else if tag == 2 {
            match varint_value(wire_type, rest, ACCOUNT, "lamports") {
                Ok((v, n)) => Ok((AccountModel { lamports: v, ..m }, n)),
                Err(e) => Err(e),
            }
        } else if tag == 3 {
            match pubkey_value(wire_type, rest, ACCOUNT, "owner") {
                Ok((v, n)) => Ok((AccountModel { owner: v, ..m }, n)),
                Err(e) => Err(e),
            }
        } else if tag == 4 {
            match varint_value(wire_type, rest, ACCOUNT, "executable") {
                Ok((v, n)) => Ok((AccountModel { executable: v != 0, ..m }, n)),
                Err(e) => Err(e),
            }
        } else if tag == 5 {
            match varint_value(wire_type, rest, ACCOUNT, "rent_epoch") {
                Ok((v, n)) => Ok((AccountModel { rent_epoch: v, ..m }, n)),
                Err(e) => Err(e),
            }
        } else if tag == 6 {
            match span_value(wire_type, rest, at, ACCOUNT, "data") {
                Ok((v, n)) => Ok((AccountModel { data: v, ..m }, n)),
                Err(e) => Err(e),
            }
        } else if tag == 7 {
            match varint_value(wire_type, rest, ACCOUNT, "write_version") {
                Ok((_, n)) => Ok((AccountModel { write_version: Some(at), ..m }, n)),
                Err(e) => Err(e),
            }
        } else if tag == 8 {
            match signature_value(wire_type, rest, at, ACCOUNT, "txn_signature") {
                Ok((v, n)) => Ok((AccountModel { txn_signature: Some(v), ..m }, n)),
                Err(e) => Err(e),
            }
        } else {
            match skipped(wire_type, tag, rest) {
                Ok(n) => Ok((m, n)),
                Err(e) => Err(e),
            }
        }
    }

    proof fn lemma_step_bounds(
        m: AccountModel,
        tag: u32,
        wire_type: WireType,
        rest: Seq<u8>,
        at: nat,
    ) {
        lemma_value_bounds(wire_type, tag, rest, at);
        lemma_value_bounds(wire_type, tag, rest, 0);
    }
}

impl Merge for AccountInfoFields {
    type Target = UpdateOneofLimitedDecodeAccount;

    open spec fn model(target: &UpdateOneofLimitedDecodeAccount) -> AccountModel {
        account_model(target)
    }

    fn merge_field(
        target: &mut UpdateOneofLimitedDecodeAccount,
        tag: u32,
        wire_type: WireType,
        buf: &mut &[u8],
        buf_len: usize,
    ) -> (r: Result<(), WireError>) {
        let place: usize = buf_len - buf.len();
        if tag == 1 {
            match decode_pubkey(wire_type, buf, ACCOUNT, "pubkey") {
                Ok(v) => {
                    target.pubkey = v;
                    Ok(())
                },
                Err(e) => Err(e),
            }
        } else if tag == 2 {
            match uint64_field(wire_type, buf, ACCOUNT, "lamports") {
                Ok(v) => {
                    target.lamports = v;
                    Ok(())
                },
                Err(e) => Err(e),
            }
        } else if tag == 3 {
            match decode_pubkey(wire_type, buf, ACCOUNT, "owner") {
                Ok(v) => {
                    target.owner = v;
                    Ok(())
                },
                Err(e) => Err(e),
            }
        } else if tag == 4 {
            match bool_field(wire_type, buf, ACCOUNT, "executable") {
                Ok(v) => {
                    target.executable = v;
                    Ok(())
                },
                Err(e) => Err(e),
            }
        } else if tag == 5 {
            match uint64_field(wire_type, buf, ACCOUNT, "rent_epoch") {
                Ok(v) => {
                    target.rent_epoch = v;
                    Ok(())
                },
                Err(e) => Err(e),
            }
        } else if tag == 6 {
            match span_field(wire_type, buf, buf_len, ACCOUNT, "data") {
                Ok(v) => {
                    target.data = v;
                    Ok(())
                },
                Err(e) => Err(e),
            }
        } else if tag == 7 {
            match uint64_field(wire_type, buf, ACCOUNT, "write_version") {
                Ok(_) => {
                    target.write_version = place;
                    Ok(())
                },
                Err(e) => Err(e),
            }
        } else if tag == 8 {
            match signature_field(wire_type, buf, buf_len, ACCOUNT, "txn_signature") {
                Ok(v) => {
                    target.txn_signature_offset = Some(v);
                    Ok(())
                },
                Err(e) => Err(e),
            }
        } else {
            skip(wire_type, tag, buf)
        }
    }
}

/// The message `m` after a length prefix and the fields that it counts, read with `S`, where the
/// fields may not reach beyond the length prefix if `exact` holds.
pub open spec fn nested<S: FieldStep>(m: S::M, rest: Seq<u8>, at: nat, exact: bool) -> Result<
    (S::M, nat),
    Failure,
> {
    match wire::varint(rest) {
        None => Err(error::failure(DecodeErrorKind::InvalidVarint)),
        Some((len, n)) => if len > rest.len() - n {
            Err(error::failure(DecodeErrorKind::BufferUnderflow))
        } else {
            match fields::fields::<S>(
                m,
                rest.skip(n as int),
                at + n,
                (rest.len() - n - len) as nat,
            ) {
                Err(e) => Err(e),
                Ok((m1, k)) => if exact && k != len {
                    Err(error::failure(DecodeErrorKind::DelimitedLengthExceeded))
                } else {
                    Ok((m1, n + k))
                },
            }
        },
    }
}

pub proof fn lemma_nested_bounds<S: FieldStep>(m: S::M, rest: Seq<u8>, at: nat, exact: bool)
    ensures
        nested::<S>(m, rest, at, exact) matches Ok((_, n)) ==> n <= rest.len(),
{
    wire::lemma_varint_bounds(rest);
    match wire::varint(rest) {
        Some((len, n)) => {
            if len <= rest.len() - n {
                fields::lemma_fields_bounds::<S>(
                    m,
                    rest.skip(n as int),
                    at + n,
                    (rest.len() - n - len) as nat,
                );
            }
        },
        None => {},
    }
}

/// Takes a length prefix and the fields that it counts.
fn merge_nested<S: Merge>(target: &mut S::Target, buf: &mut &[u8], buf_len: usize, exact: bool) -> (r:
    Result<(), WireError>)
    requires
        old(buf)@.len() <= buf_len,
    ensures
        match nested::<S>(
            S::model(old(target)),
            old(buf)@,
            (buf_len - old(buf)@.len()) as nat,
            exact,
        ) {
            Ok((m, n)) => {
                &&& r is Ok
                &&& S::model(final(target)) == m
                &&& final(buf)@ == old(buf)@.skip(n as int)
            },
            Err(e) => r is Err && r->Err_0@ == e,
        },
{
    let ghost s = buf@;
    let ghost m = S::model(target);
    proof {
        wire::lemma_varint_bounds(s);
    }
    let len: u64 = match codec::decode_varint(buf) {
        Ok(len) => len,
        Err(_) => return Err(error::create_decode_error(DecodeErrorKind::InvalidVarint)),
    };
    let remaining: usize = buf.len();
    if len > remaining as u64 {
        return Err(error::create_decode_error(DecodeErrorKind::BufferUnderflow));
    }
    let limit: usize = remaining - len as usize;
    proof {
        let n = wire::varint(s)->Some_0.1;
        fields::lemma_fields_bounds::<S>(
            m,
            s.skip(n as int),
            (buf_len - s.len() + n) as nat,
            limit as nat,
        );
    }
    match fields::merge_loop::<S>(target, buf, buf_len, limit) {
        Ok(()) => {},
        Err(e) => return Err(e),
    }
    if exact && buf.len() != limit {
        return Err(error::create_decode_error(DecodeErrorKind::DelimitedLengthExceeded));
    }
    proof {
        let n = wire::varint(s)->Some_0.1;
        let k = fields::fields::<S>(
            m,
            s.skip(n as int),
            (buf_len - s.len() + n) as nat,
            limit as nat,
        )->Ok_0.1;
        assert(s.skip(n as int).skip(k as int) =~= s.skip((n + k) as int));
    }
    Ok(())
}

/// The failure of a nested message, which names its field unless the wire type was wrong.
pub open spec fn nested_value<S: FieldStep>(
    m: S::M,
    wire_type: WireType,
    rest: Seq<u8>,
    at: nat,
    exact: bool,
    message: &'static str,
    field: &'static str,
) -> Result<(S::M, nat), Failure> {
    if wire_type != WireType::LengthDelimited {
        Err(error::failure(DecodeErrorKind::UnexpectedWireType))
    } else {
        match nested::<S>(m, rest, at, exact) {
            Ok(r) => Ok(r),
            Err(e) => Err(error::within(e, message, field)),
        }
    }
}

impl FieldStep for UpdateOneofLimitedDecodeAccount {
    type M = AccountModel;

    open spec fn step(
        m: AccountModel,
        tag: u32,
        wire_type: WireType,
        rest: Seq<u8>,
        at: nat,
    ) -> Result<
        (AccountModel, nat),
        Failure,
    > {
        if tag == 1 {
            nested_value::<AccountInfoFields>(
                AccountModel { account: at, ..m },
                wire_type,
                rest,
                at,
                true,
                ACCOUNT,
                "account",
            )
        } else if tag == 2 {
            match varint_value(wire_type, rest, ACCOUNT, "slot") {
                Ok((v, n)) => Ok((AccountModel { slot: v, ..m }, n)),
                Err(e) => Err(e),
            }
        } else if tag == 3 {
            match varint_value(wire_type, rest, ACCOUNT, "is_startup") {
                Ok((v, n)) => Ok((AccountModel { is_startup: v != 0, ..m }, n)),
                Err(e) => Err(e),
            }
        } else {
            match skipped(wire_type, tag, rest) {
                Ok(n) => Ok((m, n)),
                Err(e) => Err(e),
            }
        }
    }

    proof fn lemma_step_bounds(
        m: AccountModel,
        tag: u32,
        wire_type: WireType,
        rest: Seq<u8>,
        at: nat,
    ) {
        lemma_value_bounds(wire_type, tag, rest, at);
        lemma_value_bounds(wire_type, tag, rest, 0);
        lemma_nested_bounds::<AccountInfoFields>(AccountModel { account: at, ..m }, rest, at, true);
    }
}

impl Merge for UpdateOneofLimitedDecodeAccount {
    type Target = UpdateOneofLimitedDecodeAccount;

    open spec fn model(target: &UpdateOneofLimitedDecodeAccount) -> AccountModel {
        account_model(target)
    }

    open spec fn at_once(tag: u32) -> bool {
        tag != 1
    }

    fn merge_field(
        target: &mut UpdateOneofLimitedDecodeAccount,
        tag: u32,
        wire_type: WireType,
        buf: &mut &[u8],
        buf_len: usize,
    ) -> (r: Result<(), WireError>) {
        if tag == 1 {
            if wire_type != WireType::LengthDelimited {
                return Err(error::create_decode_error(DecodeErrorKind::UnexpectedWireType));
            }
            target.account = buf_len - buf.len();
            match merge_nested::<AccountInfoFields>(target, buf, buf_len, true) {
                Ok(()) => Ok(()),
                Err(e) => {
                    let mut e = e;
                    e.push(ACCOUNT, "account");
                    Err(e)
                },
            }
        } else if tag == 2 {
            match uint64_field(wire_type, buf, ACCOUNT, "slot") {
                Ok(v) => {
                    target.slot = v;
                    Ok(())
                },
                Err(e) => Err(e),
            }
        } else if tag == 3 {
            match bool_field(wire_type, buf, ACCOUNT, "is_startup") {
                Ok(v) => {
                    target.is_startup = v;
                    Ok(())
                },
                Err(e) => Err(e),
            }
        } else {
            skip(wire_type, tag, buf)
        }
    }
}

impl LimitedDecode for UpdateOneofLimitedDecodeAccount {
    open spec fn empty() -> AccountModel {
        AccountModel {
            account: usize::MAX as nat,
            pubkey: pubkey::pubkey_zero(),
            owner: pubkey::pubkey_zero(),
            lamports: 0,
            executable: false,
            rent_epoch: 0,
            data: Span { start: 0, end: 0 },
            txn_signature: None,
            write_version: None,
            slot: 0,
            is_startup: false,
        }
    }

    fn default_message() -> (r: Self) {
        UpdateOneofLimitedDecodeAccount {
            account: usize::MAX,
            pubkey: Pubkey::zero(),
            owner: Pubkey::zero(),
            lamports: 0,
            executable: false,
            rent_epoch: 0,
            data: Range { start: 0, end: 0 },
            txn_signature_offset: None,
            write_version: usize::MAX,
            slot: 0,
            is_startup: false,
        }
    }
}

/// A slot update: what filters look at, and the place of the rest.
#[derive(Debug)]
pub struct UpdateOneofLimitedDecodeSlot {
    pub slot: Slot,
    pub parent: Option<Slot>,
    pub status: i32,
    pub dead_error: Option<Range<usize>>,
}

/// A slot update.
pub ghost struct SlotModel {
    pub slot: u64,
    pub parent: Option<u64>,
    pub status: i32,
    pub dead_error: Option<Span>,
}

pub const SLOT: &'static str = "UpdateOneofLimitedDecodeSlot";

impl FieldStep for UpdateOneofLimitedDecodeSlot {
    type M = SlotModel;

    open spec fn step(
        m: SlotModel,
        tag: u32,
        wire_type: WireType,
        rest: Seq<u8>,
        at: nat,
    ) -> Result<
        (SlotModel, nat),
        Failure,
    > {
        if tag == 1 {
            match varint_value(wire_type, rest, SLOT, "slot") {
                Ok((v, n)) => Ok((SlotModel { slot: v, ..m }, n)),
                Err(e) => Err(e),
            }
        } else if tag == 2 {
            match varint_value(wire_type, rest, SLOT, "parent") {
                Ok((v, n)) => Ok((SlotModel { parent: Some(v), ..m }, n)),
                Err(e) => Err(e),
            }
        } else if tag == 3 {
            match varint_value(wire_type, rest, SLOT, "status") {
                Ok((v, n)) => Ok((SlotModel { status: v as i32, ..m }, n)),
                Err(e) => Err(e),
            }
        } else if tag == 4 {
            match span_value(wire_type, rest, at, SLOT, "dead_error") {
                Ok((v, n)) => Ok((SlotModel { dead_error: Some(v), ..m }, n)),
                Err(e) => Err(e),
            }
        } else {
            match skipped(wire_type, tag, rest) {
                Ok(n) => Ok((m, n)),
                Err(e) => Err(e),
            }
        }
    }

    proof fn lemma_step_bounds(
        m: SlotModel,
        tag: u32,
        wire_type: WireType,
        rest: Seq<u8>,
        at: nat,
    ) {
        lemma_value_bounds(wire_type, tag, rest, at);
        lemma_value_bounds(wire_type, tag, rest, 0);
    }
}

impl Merge for UpdateOneofLimitedDecodeSlot {
    type Target = UpdateOneofLimitedDecodeSlot;

    open spec fn model(target: &UpdateOneofLimitedDecodeSlot) -> SlotModel {
        SlotModel {
            slot: target.slot,
            parent: target.parent,
            status: target.status,
            dead_error: span_opt(target.dead_error),
        }
    }

    fn merge_field(
        target: &mut UpdateOneofLimitedDecodeSlot,
        tag: u32,
        wire_type: WireType,
        buf: &mut &[u8],
        buf_len: usize,
    ) -> (r: Result<(), WireError>) {
        if tag == 1 {
            match uint64_field(wire_type, buf, SLOT, "slot") {
                Ok(v) => {
                    target.slot = v;
                    Ok(())
                },
                Err(e) => Err(e),
            }
        } else if tag == 2 {
            match uint64_field(wire_type, buf, SLOT, "parent") {
                Ok(v) => {
                    target.parent = Some(v);
                    Ok(())
                },
                Err(e) => Err(e),
            }
        } else if tag == 3 {
            match int32_field(wire_type, buf, SLOT, "status") {
                Ok(v) => {
                    target.status = v;
                    Ok(())
                },
                Err(e) => Err(e),
            }
        } else if tag == 4 {
            match span_field(wire_type, buf, buf_len, SLOT, "dead_error") {
                Ok(v) => {
                    target.dead_error = Some(v);
                    Ok(())
                },
                Err(e) => Err(e),
            }
        } else {
            skip(wire_type, tag, buf)
        }
    }
}

impl LimitedDecode for UpdateOneofLimitedDecodeSlot {
    open spec fn empty() -> SlotModel {
        SlotModel { slot: 0, parent: None, status: 0, dead_error: None }
    }

    fn default_message() -> (r: Self) {
        UpdateOneofLimitedDecodeSlot { slot: 0, parent: None, status: 0, dead_error: None }
    }
}

/// A transaction update: its slot, and the place of the transaction.
#[derive(Debug)]
pub struct UpdateOneofLimitedDecodeTransaction {
    pub transaction: Option<Range<usize>>,
    pub slot: Slot,
}

/// A transaction update.
pub ghost struct TransactionModel {
    pub transaction: Option<Span>,
    pub slot: u64,
}

pub const TRANSACTION: &'static str = "UpdateOneofLimitedDecodeTransaction";

impl FieldStep for UpdateOneofLimitedDecodeTransaction {
    type M = TransactionModel;

    open spec fn step(
        m: TransactionModel,
        tag: u32,
        wire_type: WireType,
        rest: Seq<u8>,
        at: nat,
    ) -> Result<
        (TransactionModel, nat),
        Failure,
    > {
        if tag == 1 {
            match span_value(wire_type, rest, at, TRANSACTION, "transaction") {
                Ok((v, n)) => Ok((TransactionModel { transaction: Some(v), ..m }, n)),
                Err(e) => Err(e),
            }
        } else if tag == 2 {
            match varint_value(wire_type, rest, TRANSACTION, "slot") {
                Ok((v, n)) => Ok((TransactionModel { slot: v, ..m }, n)),
                Err(e) => Err(e),
            }
        } else {
            match skipped(wire_type, tag, rest) {
                Ok(n) => Ok((m, n)),
                Err(e) => Err(e),
            }
        }
    }

    proof fn lemma_step_bounds(
        m: TransactionModel,
        tag: u32,
        wire_type: WireType,
        rest: Seq<u8>,
        at: nat,
    ) {
        lemma_value_bounds(wire_type, tag, rest, at);
        lemma_value_bounds(wire_type, tag, rest, 0);
    }
}

impl Merge for UpdateOneofLimitedDecodeTransaction {
    type Target = UpdateOneofLimitedDecodeTransaction;

    open spec fn model(target: &UpdateOneofLimitedDecodeTransaction) -> TransactionModel {
        TransactionModel { transaction: span_opt(target.transaction), slot: target.slot }
    }

    fn merge_field(
        target: &mut UpdateOneofLimitedDecodeTransaction,
        tag: u32,
        wire_type: WireType,
        buf: &mut &[u8],
        buf_len: usize,
    ) -> (r: Result<(), WireError>) {
        if tag == 1 {
            match span_field(wire_type, buf, buf_len, TRANSACTION, "transaction") {
                Ok(v) => {
                    target.transaction = Some(v);
                    Ok(())
                },
                Err(e) => Err(e),
            }
        } else if tag == 2 {
            match uint64_field(wire_type, buf, TRANSACTION, "slot") {
                Ok(v) => {
                    target.slot = v;
                    Ok(())
                },
                Err(e) => Err(e),
            }
        } else {
            skip(wire_type, tag, buf)
        }
    }
}

impl LimitedDecode for UpdateOneofLimitedDecodeTransaction {
    open spec fn empty() -> TransactionModel {
        TransactionModel { transaction: None, slot: 0 }
    }

    fn default_message() -> (r: Self) {
        UpdateOneofLimitedDecodeTransaction { transaction: None, slot: 0 }
    }
}

/// An entry update: what filters look at.
#[derive(Debug)]
pub struct UpdateOneofLimitedDecodeEntry {
    pub slot: Slot,
    pub index: u64,
    pub executed_transaction_count: u64,
}

pub const ENTRY: &'static str = "UpdateOneofLimitedDecodeEntry";

impl FieldStep for UpdateOneofLimitedDecodeEntry {
    type M = UpdateOneofLimitedDecodeEntry;

    open spec fn step(
        m: UpdateOneofLimitedDecodeEntry,
        tag: u32,
        wire_type: WireType,
        rest: Seq<u8>,
        at: nat,
    ) -> Result<
        (UpdateOneofLimitedDecodeEntry, nat),
        Failure,
    > {
        if tag == 1 {
            match varint_value(wire_type, rest, ENTRY, "slot") {
                Ok((v, n)) => Ok((UpdateOneofLimitedDecodeEntry { slot: v, ..m }, n)),
                Err(e) => Err(e),
            }
        } else if tag == 2 {
            match varint_value(wire_type, rest, ENTRY, "index") {
                Ok((v, n)) => Ok((UpdateOneofLimitedDecodeEntry { index: v, ..m }, n)),
                Err(e) => Err(e),
            }
        } else if tag == 3 {
            match varint_value(wire_type, rest, ENTRY, "num_hashes") {
                Ok((_, n)) => Ok((m, n)),
                Err(e) => Err(e),
            }
        } else if tag == 4 {
            match span_value(wire_type, rest, at, ENTRY, "hash") {
                Ok((_, n)) => Ok((m, n)),
                Err(e) => Err(e),
            }
        } else if tag == 5 {
            match varint_value(wire_type, rest, ENTRY, "executed_transaction_count") {
                Ok((v, n)) => Ok((UpdateOneofLimitedDecodeEntry { executed_transaction_count: v, ..m }, n)),
                Err(e) => Err(e),
            }
        } else if tag == 6 {
            match varint_value(wire_type, rest, ENTRY, "starting_transaction_index") {
                Ok((_, n)) => Ok((m, n)),
                Err(e) => Err(e),
            }
        } else {
            match skipped(wire_type, tag, rest) {
                Ok(n) => Ok((m, n)),
                Err(e) => Err(e),
            }
        }
    }

    proof fn lemma_step_bounds(
        m: UpdateOneofLimitedDecodeEntry,
        tag: u32,
        wire_type: WireType,
        rest: Seq<u8>,
        at: nat,
    ) {
        lemma_value_bounds(wire_type, tag, rest, at);
        lemma_value_bounds(wire_type, tag, rest, 0);
    }
}

impl Merge for UpdateOneofLimitedDecodeEntry {
    type Target = UpdateOneofLimitedDecodeEntry;

    open spec fn model(target: &UpdateOneofLimitedDecodeEntry) -> UpdateOneofLimitedDecodeEntry {
        *target
    }

    fn merge_field(
        target: &mut UpdateOneofLimitedDecodeEntry,
        tag: u32,
        wire_type: WireType,
        buf: &mut &[u8],
        buf_len: usize,
    ) -> (r: Result<(), WireError>) {
        if tag == 1 {
            match uint64_field(wire_type, buf, ENTRY, "slot") {
                Ok(v) => {
                    target.slot = v;
                    Ok(())
                },
                Err(e) => Err(e),
            }
        } else if tag == 2 {
            match uint64_field(wire_type, buf, ENTRY, "index") {
                Ok(v) => {
                    target.index = v;
                    Ok(())
                },
                Err(e) => Err(e),
            }
        } else if tag == 3 {
            match uint64_field(wire_type, buf, ENTRY, "num_hashes") {
                Ok(_) => {
                    Ok(())
                },
                Err(e) => Err(e),
            }
        } else if tag == 4 {
            match span_field(wire_type, buf, buf_len, ENTRY, "hash") {
                Ok(_) => {
                    Ok(())
                },
                Err(e) => Err(e),
            }
        } else if tag == 5 {
            match uint64_field(wire_type, buf, ENTRY, "executed_transaction_count") {
                Ok(v) => {
                    target.executed_transaction_count = v;
                    Ok(())
                },
                Err(e) => Err(e),
            }
        } else if tag == 6 {
            match uint64_field(wire_type, buf, ENTRY, "starting_transaction_index") {
                Ok(_) => {
                    Ok(())
                },
                Err(e) => Err(e),
            }
        } else {
            skip(wire_type, tag, buf)
        }
    }
}

impl LimitedDecode for UpdateOneofLimitedDecodeEntry {
    open spec fn empty() -> UpdateOneofLimitedDecodeEntry {
        UpdateOneofLimitedDecodeEntry { slot: 0, index: 0, executed_transaction_count: 0 }
    }

    fn default_message() -> (r: Self) {
        UpdateOneofLimitedDecodeEntry { slot: 0, index: 0, executed_transaction_count: 0 }
    }
}

/// A transaction: what filters look at, and the places of the rest.
#[derive(Debug)]
pub struct UpdateOneofLimitedDecodeTransactionInfo {
    pub signature_offset: Option<usize>,
    pub is_vote: bool,
    pub index: u64,
    /// The static and the loaded account keys.
    pub account_keys: PubkeySet,
    pub err: Option<Range<usize>>,
}

/// A transaction.
pub ghost struct TransactionInfoModel {
    pub signature: Option<nat>,
    pub is_vote: bool,
    pub index: u64,
    pub account_keys: Set<Seq<u8>>,
    pub err: Option<Span>,
}

/// What a transaction decoder holds.
pub open spec fn transaction_info_model(target: &UpdateOneofLimitedDecodeTransactionInfo) -> TransactionInfoModel {
    TransactionInfoModel {
        signature: place_opt(target.signature_offset),
        is_vote: target.is_vote,
        index: target.index,
        account_keys: target.account_keys@,
        err: span_opt(target.err),
    }
}

pub const TRANSACTION_INFO: &'static str = "UpdateOneofLimitedDecodeTransactionInfo";

/// The fields of the message of a transaction: only the account keys are looked at.
pub struct TransactionMessageFields;

impl FieldStep for TransactionMessageFields {
    type M = TransactionInfoModel;

    open spec fn step(
        m: TransactionInfoModel,
        tag: u32,
        wire_type: WireType,
        rest: Seq<u8>,
        at: nat,
    ) -> Result<
        (TransactionInfoModel, nat),
        Failure,
    > {
        if tag == 2 {
            match pubkey_value(wire_type, rest, TRANSACTION_INFO, "account_keys") {
                Ok((v, n)) => Ok((TransactionInfoModel { account_keys: m.account_keys.insert(v), ..m }, n)),
                Err(e) => Err(e),
            }
        } else {
            match skipped(wire_type, tag, rest) {
                Ok(n) => Ok((m, n)),
                Err(e) => Err(e),
            }
        }
    }

    proof fn lemma_step_bounds(
        m: TransactionInfoModel,
        tag: u32,
        wire_type: WireType,
        rest: Seq<u8>,
        at: nat,
    ) {
        lemma_value_bounds(wire_type, tag, rest, at);
        lemma_value_bounds(wire_type, tag, rest, 0);
    }
}

impl Merge for TransactionMessageFields {
    type Target = UpdateOneofLimitedDecodeTransactionInfo;

    open spec fn model(target: &UpdateOneofLimitedDecodeTransactionInfo) -> TransactionInfoModel {
        transaction_info_model(target)
    }

    fn merge_field(
        target: &mut UpdateOneofLimitedDecodeTransactionInfo,
        tag: u32,
        wire_type: WireType,
        buf: &mut &[u8],
        buf_len: usize,
    ) -> (r: Result<(), WireError>) {
        if tag == 2 {
            match decode_pubkey(wire_type, buf, TRANSACTION_INFO, "account_keys") {
                Ok(v) => {
                    let _ = target.account_keys.insert(v);
                    Ok(())
                },
                Err(e) => Err(e),
            }
        } else {
            skip(wire_type, tag, buf)
        }
    }
}

/// The fields of a transaction: only the message is looked at.
pub struct TransactionFields;

impl FieldStep for TransactionFields {
    type M = TransactionInfoModel;

    open spec fn step(
        m: TransactionInfoModel,
        tag: u32,
        wire_type: WireType,
        rest: Seq<u8>,
        at: nat,
    ) -> Result<
        (TransactionInfoModel, nat),
        Failure,
    > {
        if tag == 2 {
            if wire_type != WireType::LengthDelimited {
                Err(error::failure(DecodeErrorKind::UnexpectedWireType))
            } else {
                nested::<TransactionMessageFields>(m, rest, at, false)
            }
        } else {
            match skipped(wire_type, tag, rest) {
                Ok(n) => Ok((m, n)),
                Err(e) => Err(e),
            }
        }
    }

    proof fn lemma_step_bounds(
        m: TransactionInfoModel,
        tag: u32,
        wire_type: WireType,
        rest: Seq<u8>,
        at: nat,
    ) {
        lemma_value_bounds(wire_type, tag, rest, at);
        lemma_value_bounds(wire_type, tag, rest, 0);
        lemma_nested_bounds::<TransactionMessageFields>(m, rest, at, false);
    }
}

impl Merge for TransactionFields {
    type Target = UpdateOneofLimitedDecodeTransactionInfo;

    open spec fn model(target: &UpdateOneofLimitedDecodeTransactionInfo) -> TransactionInfoModel {
        transaction_info_model(target)
    }

    open spec fn at_once(tag: u32) -> bool {
        tag != 2
    }

    fn merge_field(
        target: &mut UpdateOneofLimitedDecodeTransactionInfo,
        tag: u32,
        wire_type: WireType,
        buf: &mut &[u8],
        buf_len: usize,
    ) -> (r: Result<(), WireError>) {
        if tag == 2 {
            if wire_type != WireType::LengthDelimited {
                return Err(error::create_decode_error(DecodeErrorKind::UnexpectedWireType));
            }
            merge_nested::<TransactionMessageFields>(target, buf, buf_len, false)
        } else {
            skip(wire_type, tag, buf)
        }
    }
}

/// The fields of the metadata of a transaction: the error and the loaded addresses are looked at.
pub struct TransactionMetaFields;

impl FieldStep for TransactionMetaFields {
    type M = TransactionInfoModel;

    open spec fn step(
        m: TransactionInfoModel,
        tag: u32,
        wire_type: WireType,
        rest: Seq<u8>,
        at: nat,
    ) -> Result<
        (TransactionInfoModel, nat),
        Failure,
    > {
        if tag == 1 {
            if wire_type != WireType::LengthDelimited {
                Err(error::failure(DecodeErrorKind::UnexpectedWireType))
            } else {
                match delimited_at(rest, at) {
                    Ok((v, n)) => Ok((TransactionInfoModel { err: Some(v), ..m }, n)),
                    Err(kind) => Err(error::failure(kind)),
                }
            }
        } else if tag == 12 {
            match pubkey_value(wire_type, rest, TRANSACTION_INFO, "loaded_writable_addresses") {
                Ok((v, n)) => Ok((TransactionInfoModel { account_keys: m.account_keys.insert(v), ..m }, n)),
                Err(e) => Err(e),
            }
        } else if tag == 13 {
            match pubkey_value(wire_type, rest, TRANSACTION_INFO, "loaded_readonly_addresses") {
                Ok((v, n)) => Ok((TransactionInfoModel { account_keys: m.account_keys.insert(v), ..m }, n)),
                Err(e) => Err(e),
            }
        } else {
            match skipped(wire_type, tag, rest) {
                Ok(n) => Ok((m, n)),
                Err(e) => Err(e),
            }
        }
    }

    proof fn lemma_step_bounds(
        m: TransactionInfoModel,
        tag: u32,
        wire_type: WireType,
        rest: Seq<u8>,
        at: nat,
    ) {
        lemma_value_bounds(wire_type, tag, rest, at);
        lemma_value_bounds(wire_type, tag, rest, 0);
    }
}

impl Merge for TransactionMetaFields {
    type Target = UpdateOneofLimitedDecodeTransactionInfo;

    open spec fn model(target: &UpdateOneofLimitedDecodeTransactionInfo) -> TransactionInfoModel {
        transaction_info_model(target)
    }

    fn merge_field(
        target: &mut UpdateOneofLimitedDecodeTransactionInfo,
        tag: u32,
        wire_type: WireType,
        buf: &mut &[u8],
        buf_len: usize,
    ) -> (r: Result<(), WireError>) {
        if tag == 1 {
            if wire_type != WireType::LengthDelimited {
                return Err(error::create_decode_error(DecodeErrorKind::UnexpectedWireType));
            }
            match take_span(buf, buf_len) {
                Ok(v) => {
                    target.err = Some(v);
                    Ok(())
                },
                Err(kind) => Err(error::create_decode_error(kind)),
            }
        } else if tag == 12 {
            match decode_pubkey(wire_type, buf, TRANSACTION_INFO, "loaded_writable_addresses") {
                Ok(v) => {
                    let _ = target.account_keys.insert(v);
                    Ok(())
                },
                Err(e) => Err(e),
            }
        } else if tag == 13 {
            match decode_pubkey(wire_type, buf, TRANSACTION_INFO, "loaded_readonly_addresses") {
                Ok(v) => {
                    let _ = target.account_keys.insert(v);
                    Ok(())
                },
                Err(e) => Err(e),
            }
        } else {
            skip(wire_type, tag, buf)
        }
    }
}

impl FieldStep for UpdateOneofLimitedDecodeTransactionInfo {
    type M = TransactionInfoModel;

    open spec fn step(
        m: TransactionInfoModel,
        tag: u32,
        wire_type: WireType,
        rest: Seq<u8>,
        at: nat,
    ) -> Result<
        (TransactionInfoModel, nat),
        Failure,
    > {
        if tag == 1 {
            match signature_value(wire_type, rest, at, TRANSACTION_INFO, "signature") {
                Ok((v, n)) => Ok((TransactionInfoModel { signature: Some(v), ..m }, n)),
                Err(e) => Err(e),
            }
        } else if tag == 2 {
            match varint_value(wire_type, rest, TRANSACTION_INFO, "is_vote") {
                Ok((v, n)) => Ok((TransactionInfoModel { is_vote: v != 0, ..m }, n)),
                Err(e) => Err(e),
            }
        } else if tag == 3 {
            nested_value::<TransactionFields>(
                m,
                wire_type,
                rest,
                at,
                false,
                TRANSACTION_INFO,
                "transaction",
            )
        } else if tag == 4 {
            nested_value::<TransactionMetaFields>(
                m,
                wire_type,
                rest,
                at,
                false,
                TRANSACTION_INFO,
                "meta",
            )
        } else if tag == 5 {
            match varint_value(wire_type, rest, TRANSACTION_INFO, "index") {
                Ok((v, n)) => Ok((TransactionInfoModel { index: v, ..m }, n)),
                Err(e) => Err(e),
            }
        } else {
            match skipped(wire_type, tag, rest) {
                Ok(n) => Ok((m, n)),
                Err(e) => Err(e),
            }
        }
    }

    proof fn lemma_step_bounds(
        m: TransactionInfoModel,
        tag: u32,
        wire_type: WireType,
        rest: Seq<u8>,
        at: nat,
    ) {
        lemma_value_bounds(wire_type, tag, rest, at);
        lemma_value_bounds(wire_type, tag, rest, 0);
        lemma_nested_bounds::<TransactionFields>(m, rest, at, false);
        lemma_nested_bounds::<TransactionMetaFields>(m, rest, at, false);
    }
}

impl Merge for UpdateOneofLimitedDecodeTransactionInfo {
    type Target = UpdateOneofLimitedDecodeTransactionInfo;

    open spec fn model(target: &UpdateOneofLimitedDecodeTransactionInfo) -> TransactionInfoModel {
        transaction_info_model(target)
    }

    open spec fn at_once(tag: u32) -> bool {
        tag != 3 && tag != 4
    }

    fn merge_field(
        target: &mut UpdateOneofLimitedDecodeTransactionInfo,
        tag: u32,
        wire_type: WireType,
        buf: &mut &[u8],
        buf_len: usize,
    ) -> (r: Result<(), WireError>) {
        if tag == 1 {
            match signature_field(wire_type, buf, buf_len, TRANSACTION_INFO, "signature") {
                Ok(v) => {
                    target.signature_offset = Some(v);
                    Ok(())
                },
                Err(e) => Err(e),
            }
        } else if tag == 2 {
            match bool_field(wire_type, buf, TRANSACTION_INFO, "is_vote") {
                Ok(v) => {
                    target.is_vote = v;
                    Ok(())
                },
                Err(e) => Err(e),
            }
        } else if tag == 3 {
            if wire_type != WireType::LengthDelimited {
                return Err(error::create_decode_error(DecodeErrorKind::UnexpectedWireType));
            }
            match merge_nested::<TransactionFields>(target, buf, buf_len, false) {
                Ok(()) => Ok(()),
                Err(e) => {
                    let mut e = e;
                    e.push(TRANSACTION_INFO, "transaction");
                    Err(e)
                },
            }
        } else if tag == 4 {
            if wire_type != WireType::LengthDelimited {
                return Err(error::create_decode_error(DecodeErrorKind::UnexpectedWireType));
            }
            match merge_nested::<TransactionMetaFields>(target, buf, buf_len, false) {
                Ok(()) => Ok(()),
                Err(e) => {
                    let mut e = e;
                    e.push(TRANSACTION_INFO, "meta");
                    Err(e)
                },
            }
        } else if tag == 5 {
            match uint64_field(wire_type, buf, TRANSACTION_INFO, "index") {
                Ok(v) => {
                    target.index = v;
                    Ok(())
                },
                Err(e) => Err(e),
            }
        } else {
            skip(wire_type, tag, buf)
        }
    }
}

impl LimitedDecode for UpdateOneofLimitedDecodeTransactionInfo {
    open spec fn empty() -> TransactionInfoModel {
        TransactionInfoModel {
            signature: None,
            is_vote: false,
            index: 0,
            account_keys: Set::empty(),
            err: None,
        }
    }

    fn default_message() -> (r: Self) {
        UpdateOneofLimitedDecodeTransactionInfo {
            signature_offset: None,
            is_vote: false,
            index: 0,
            account_keys: PubkeySet::new(),
            err: None,
        }
    }
}

} // verus!
