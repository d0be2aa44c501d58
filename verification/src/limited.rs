//! What the limited parser makes of what was encoded.
use vstd::prelude::*;

use crate::account;
use crate::account::AccountContent;
use crate::codec::Timestamp;
use crate::decode::{
    LimitedDecode, SlotModel, Span, UpdateOneofLimitedDecodeEntry, UpdateOneofLimitedDecodeSlot,
};
use crate::encode;
use crate::error::Failure;
use crate::fields::FieldStep;
use crate::geyser;
use crate::geyser::{EntryView, SlotView};
use crate::message;
use crate::message::{MessageView, ParseFailure};
use crate::protobuf::ProtobufMessage;
use crate::round_trip;
use crate::round_trip::leads;
use crate::update;
use crate::wire;
use crate::wire::WireType;

verus! {

/// A number that is left out where it is zero.
proof fn lemma_number<S: FieldStep>(m: S::M, at: nat, tag: u32, v: u64, m1: S::M)
    requires
        1 <= tag <= wire::MAX_TAG,
        v == 0 ==> m1 == m,
        forall|t: Seq<u8>|
            #[trigger] S::step(
                m,
                tag,
                WireType::Varint,
                wire::varint_bytes(v as nat) + t,
                at + wire::key_bytes(tag, WireType::Varint).len(),
            ) == Ok::<(S::M, nat), Failure>((m1, wire::varint_bytes(v as nat).len())),
    ensures
        leads::<S>(m, at, wire::varint_field_opt(tag, v), m1),
{
    if v == 0 {
        round_trip::lemma_leads_nowhere::<S>(m, at);
    } else {
        round_trip::lemma_leads_field::<S>(
            m,
            at,
            tag,
            WireType::Varint,
            wire::varint_bytes(v as nat),
            m1,
        );
    }
}

/// The status of a slot survives its encoding.
proof fn lemma_status(status: i32)
    ensures
        (status as u64) as i32 == status,
        (status as u64) == 0 <==> status == 0,
{
    assert((status as u64) as i32 == status) by (bit_vector);
    assert((status as u64) == 0 <==> status == 0) by (bit_vector);
}

/// The slot, the parent and the status of an encoded slot update.
spec fn upto_status(m: SlotView) -> Seq<u8> {
    wire::varint_field_opt(1, m.slot) + encode::optional_varint(2, m.parent)
        + wire::varint_field_opt(3, m.status as u64)
}

/// The bytes of the error of a slot update.
pub open spec fn error_bytes(m: SlotView) -> Option<Seq<u8>> {
    match m.dead_error {
        Some(e) => Some(vstd::utf8::encode_utf8(e)),
        None => None,
    }
}

/// The place of the error of an encoded slot update.
spec fn error_place(m: SlotView) -> Option<Span> {
    match m.dead_error {
        Some(e) => {
            let bytes = vstd::utf8::encode_utf8(e);
            let start = upto_status(m).len() + wire::key_bytes(
                4,
                WireType::LengthDelimited,
            ).len() + wire::varint_bytes(bytes.len()).len();
            Some(Span { start, end: start + bytes.len() })
        },
        None => None,
    }
}

/// The fields of a slot update are read back.
proof fn lemma_slot_fields(m: SlotView)
    requires
        encode::slot_bytes(m).len() <= u64::MAX,
    ensures
        leads::<UpdateOneofLimitedDecodeSlot>(
            UpdateOneofLimitedDecodeSlot::empty(),
            0,
            encode::slot_bytes(m),
            SlotModel {
                slot: m.slot,
                parent: m.parent,
                status: m.status,
                dead_error: error_place(m),
            },
        ),
{
    let m0 = UpdateOneofLimitedDecodeSlot::empty();
    let m1 = SlotModel { slot: m.slot, ..m0 };
    let m2 = SlotModel { parent: m.parent, ..m1 };
    let m3 = SlotModel { status: m.status, ..m2 };
    let m4 = SlotModel { dead_error: error_place(m), ..m3 };
    let a = wire::varint_field_opt(1, m.slot);
    let b = encode::optional_varint(2, m.parent);
    let c = wire::varint_field_opt(3, m.status as u64);
    lemma_status(m.status);
    assert forall|v: u64, t: Seq<u8>|
        wire::varint(#[trigger] (wire::varint_bytes(v as nat) + t)) == Some(
            (v, wire::varint_bytes(v as nat).len()),
        ) by {
        wire::lemma_varint_round_trip(v, t);
    }
    lemma_number::<UpdateOneofLimitedDecodeSlot>(m0, 0, 1, m.slot, m1);
    match m.parent {
        Some(parent) => {
            round_trip::lemma_leads_field::<UpdateOneofLimitedDecodeSlot>(
                m1,
                a.len(),
                2,
                WireType::Varint,
                wire::varint_bytes(parent as nat),
                m2,
            );
        },
        None => {
            round_trip::lemma_leads_nowhere::<UpdateOneofLimitedDecodeSlot>(m1, a.len());
        },
    }
    lemma_number::<UpdateOneofLimitedDecodeSlot>(m2, (a + b).len(), 3, m.status as u64, m3);
    round_trip::lemma_leads_on::<UpdateOneofLimitedDecodeSlot>(m0, 0, a, m1, b, m2);
    round_trip::lemma_leads_on::<UpdateOneofLimitedDecodeSlot>(m0, 0, a + b, m2, c, m3);
    let at = (a + b + c).len();
    match m.dead_error {
        Some(e) => {
            let bytes = vstd::utf8::encode_utf8(e);
            let v = wire::delimited(bytes);
            let k = wire::key_bytes(4, WireType::LengthDelimited).len();
            assert(bytes.len() <= wire::bytes_field(4, bytes).len());
            assert forall|t: Seq<u8>|
                #[trigger] UpdateOneofLimitedDecodeSlot::step(
                    m3,
                    4,
                    WireType::LengthDelimited,
                    v + t,
                    at + k,
                ) == Ok::<(SlotModel, nat), Failure>((m4, v.len())) by {
                round_trip::lemma_delimited(bytes, t, at + k);
            }
            round_trip::lemma_leads_field::<UpdateOneofLimitedDecodeSlot>(
                m3,
                at,
                4,
                WireType::LengthDelimited,
                v,
                m4,
            );
            round_trip::lemma_leads_on::<UpdateOneofLimitedDecodeSlot>(
                m0,
                0,
                a + b + c,
                m3,
                wire::bytes_field(4, bytes),
                m4,
            );
        },
        None => {
            assert(a + b + c + Seq::<u8>::empty() =~= a + b + c);
        },
    }
}

/// An encoded slot update is what the limited parser makes of it, where its status is one.
pub proof fn law_limited_slot(m: SlotView, filters: Seq<Seq<char>>, created_at: Timestamp)
    requires
        encode::envelope_bytes(filters, 3, encode::slot_bytes(m), created_at).len() <= u64::MAX,
    ensures
        ({
            let data = encode::envelope_bytes(filters, 3, encode::slot_bytes(m), created_at);
            match geyser::slot_status_of(m.status) {
                Some(status) => {
                    &&& message::limited_message(data) matches Ok(MessageView::Slot(m1)) && {
                        &&& m1 is Limited
                        &&& m1.slot() == m.slot
                        &&& m1.parent() == m.parent
                        &&& m1.status() == status
                        &&& m1.dead_error_bytes() == error_bytes(m)
                        &&& m1.in_bounds()
                        &&& m1.created_at() == created_at
                        &&& update::slot_payload(m1) == encode::slot_bytes(m)
                    }
                },
                None => message::limited_message(data) == Err::<MessageView, ParseFailure>(
                    ParseFailure::InvalidEnumValue(m.status),
                ),
            }
        }),
{
    let payload = encode::slot_bytes(m);
    round_trip::law_envelope(filters, 3, payload, created_at);
    lemma_slot_fields(m);
    round_trip::lemma_leads_all::<UpdateOneofLimitedDecodeSlot>(
        UpdateOneofLimitedDecodeSlot::empty(),
        payload,
        SlotModel {
            slot: m.slot,
            parent: m.parent,
            status: m.status,
            dead_error: error_place(m),
        },
    );
    if let Some(e) = m.dead_error {
        let bytes = vstd::utf8::encode_utf8(e);
        let sp = error_place(m)->Some_0;
        let range = round_trip::payload_place(filters, 3, payload);
        let data = encode::envelope_bytes(filters, 3, payload, created_at);
        assert(payload.subrange(sp.start as int, sp.end as int) =~= bytes);
        assert(account::bytes_at(data, message::span_in(range, sp)) =~= account::bytes_at(
            account::bytes_at(data, range),
            sp,
        ));
    }
}

/// The fields of an entry update are read back.
proof fn lemma_entry_fields(m: EntryView)
    requires
        m.hash.len() <= u64::MAX,
    ensures
        leads::<UpdateOneofLimitedDecodeEntry>(
            UpdateOneofLimitedDecodeEntry::empty(),
            0,
            encode::entry_bytes(m),
            UpdateOneofLimitedDecodeEntry {
                slot: m.slot,
                index: m.index,
                executed_transaction_count: m.executed_transaction_count,
            },
        ),
{
    let m0 = UpdateOneofLimitedDecodeEntry::empty();
    let m1 = UpdateOneofLimitedDecodeEntry { slot: m.slot, ..m0 };
    let m2 = UpdateOneofLimitedDecodeEntry { index: m.index, ..m1 };
    let m5 = UpdateOneofLimitedDecodeEntry {
        executed_transaction_count: m.executed_transaction_count,
        ..m2
    };
    let a = wire::varint_field_opt(1, m.slot);
    let b = wire::varint_field_opt(2, m.index);
    let c = wire::varint_field_opt(3, m.num_hashes);
    let d = wire::bytes_field_opt(4, m.hash);
    let e = wire::varint_field_opt(5, m.executed_transaction_count);
    let f = wire::varint_field_opt(6, m.starting_transaction_index);
    assert forall|v: u64, t: Seq<u8>|
        wire::varint(#[trigger] (wire::varint_bytes(v as nat) + t)) == Some(
            (v, wire::varint_bytes(v as nat).len()),
        ) by {
        wire::lemma_varint_round_trip(v, t);
    }
    lemma_number::<UpdateOneofLimitedDecodeEntry>(m0, 0, 1, m.slot, m1);
    lemma_number::<UpdateOneofLimitedDecodeEntry>(m1, a.len(), 2, m.index, m2);
    lemma_number::<UpdateOneofLimitedDecodeEntry>(m2, (a + b).len(), 3, m.num_hashes, m2);
    let at = (a + b + c).len();
    if m.hash.len() == 0 {
        round_trip::lemma_leads_nowhere::<UpdateOneofLimitedDecodeEntry>(m2, at);
    } else {
        let v = wire::delimited(m.hash);
        let k = wire::key_bytes(4, WireType::LengthDelimited).len();
        assert forall|t: Seq<u8>|
            #[trigger] UpdateOneofLimitedDecodeEntry::step(
                m2,
                4,
                WireType::LengthDelimited,
                v + t,
                at + k,
            ) == Ok::<(UpdateOneofLimitedDecodeEntry, nat), Failure>((m2, v.len())) by {
            round_trip::lemma_delimited(m.hash, t, at + k);
        }
        round_trip::lemma_leads_field::<UpdateOneofLimitedDecodeEntry>(
            m2,
            at,
            4,
            WireType::LengthDelimited,
            v,
            m2,
        );
    }
    lemma_number::<UpdateOneofLimitedDecodeEntry>(
        m2,
        (a + b + c + d).len(),
        5,
        m.executed_transaction_count,
        m5,
    );
    lemma_number::<UpdateOneofLimitedDecodeEntry>(
        m5,
        (a + b + c + d + e).len(),
        6,
        m.starting_transaction_index,
        m5,
    );
    round_trip::lemma_leads_on::<UpdateOneofLimitedDecodeEntry>(m0, 0, a, m1, b, m2);
    round_trip::lemma_leads_on::<UpdateOneofLimitedDecodeEntry>(m0, 0, a + b, m2, c, m2);
    round_trip::lemma_leads_on::<UpdateOneofLimitedDecodeEntry>(m0, 0, a + b + c, m2, d, m2);
    round_trip::lemma_leads_on::<UpdateOneofLimitedDecodeEntry>(m0, 0, a + b + c + d, m2, e, m5);
    round_trip::lemma_leads_on::<UpdateOneofLimitedDecodeEntry>(
        m0,
        0,
        a + b + c + d + e,
        m5,
        f,
        m5,
    );
}

/// An encoded entry update is what the limited parser makes of it.
pub proof fn law_limited_entry(m: EntryView, filters: Seq<Seq<char>>, created_at: Timestamp)
    requires
        encode::envelope_bytes(filters, 8, encode::entry_bytes(m), created_at).len() <= u64::MAX,
    ensures
        ({
            let data = encode::envelope_bytes(filters, 8, encode::entry_bytes(m), created_at);
            &&& message::limited_message(data) matches Ok(MessageView::Entry(m1)) && {
                &&& m1 is Limited
                &&& m1.slot() == m.slot
                &&& m1.index() == m.index
                &&& m1.executed_transaction_count() == m.executed_transaction_count
                &&& m1.created_at() == created_at
                &&& update::entry_payload(m1) == encode::entry_bytes(m)
            }
        }),
{
    let payload = encode::entry_bytes(m);
    assert(m.hash.len() <= wire::bytes_field_opt(4, m.hash).len());
    assert(wire::bytes_field_opt(4, m.hash).len() <= payload.len());
    round_trip::law_envelope(filters, 8, payload, created_at);
    lemma_entry_fields(m);
    round_trip::lemma_leads_all::<UpdateOneofLimitedDecodeEntry>(
        UpdateOneofLimitedDecodeEntry::empty(),
        payload,
        UpdateOneofLimitedDecodeEntry {
            slot: m.slot,
            index: m.index,
            executed_transaction_count: m.executed_transaction_count,
        },
    );
}

/// Whether the message says what a validator told of.
pub open spec fn says(message: MessageView, m: &ProtobufMessage) -> bool {
    match (message, m) {
        (MessageView::Account(a), ProtobufMessage::Account { slot, account }) => {
            a.content() == (AccountContent { info: account@, slot: *slot, is_startup: false })
        },
        (MessageView::Slot(s), ProtobufMessage::Slot { slot, parent, status }) => {
            &&& s.slot() == *slot
            &&& s.parent() == *parent
            &&& s.status() == status.in_update()
        },
        (MessageView::Entry(e), ProtobufMessage::Entry { entry }) => {
            &&& e.slot() == entry.slot
            &&& e.index() == entry.index
            &&& e.executed_transaction_count() == entry.executed_transaction_count
        },
        _ => false,
    }
}

/// An account, a slot or an entry that a validator tells of is what the limited parser makes of its update.
pub proof fn law_told_message(m: &ProtobufMessage, created_at: Timestamp)
    requires
        m is Account || m is Slot || m is Entry,
        m matches ProtobufMessage::Account { account, .. } ==> round_trip::readable(account@),
        m.encoded(created_at).len() <= u64::MAX,
    ensures
        message::limited_message(m.encoded(created_at)) matches Ok(message) && says(message, m),
{
    round_trip::law_update_bytes(m.tag(), m.payload(), created_at);
    match m {
        ProtobufMessage::Account { slot, account } => {
            round_trip::law_told_account(account@, *slot, created_at);
        },
        ProtobufMessage::Slot { slot, parent, status } => {
            law_limited_slot(
                SlotView {
                    slot: *slot,
                    parent: *parent,
                    status: geyser::slot_status_number(status.in_update()),
                    dead_error: status.dead_error(),
                },
                Seq::empty(),
                created_at,
            );
        },
        ProtobufMessage::Entry { entry } => {
            law_limited_entry(entry@, Seq::empty(), created_at);
        },
        _ => {},
    }
}

} // verus!
