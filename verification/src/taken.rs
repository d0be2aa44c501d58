//! What one field does to what a decoder holds, whatever it held before and whatever follows.
use vstd::prelude::*;

use crate::codec::{Timestamp, TimestampFields};
use crate::decode::{
    AccountInfoFields, AccountModel, SlotModel, Span, SubscribeUpdateLimitedDecode,
    TransactionInfoModel, TransactionMessageFields, TransactionMetaFields, TransactionModel,
    UpdateModel, UpdateOneofLimitedDecodeAccount, UpdateOneofLimitedDecodeEntry,
    UpdateOneofLimitedDecodeSlot, UpdateOneofLimitedDecodeTransaction,
    UpdateOneofLimitedDecodeTransactionInfo,
};
use crate::error::{DecodeErrorKind, Failure};
use crate::fields::FieldStep;
use crate::round_trip;
use crate::round_trip::leads;
use crate::wire;
use crate::wire::WireType;

verus! {

/// Where the bytes of a field that lies `at` bytes into the buffer lie.
pub open spec fn place(at: nat, tag: u32, p: Seq<u8>) -> Span {
    let end = at + wire::bytes_field(tag, p).len();
    Span { start: (end - p.len()) as nat, end }
}

/// Whether the field is refused for the reason, whatever was held before.
pub open spec fn refused<S: FieldStep>(
    m: S::M,
    at: nat,
    tag: u32,
    wire_type: WireType,
    v: Seq<u8>,
    kind: DecodeErrorKind,
) -> bool {
    S::step(m, tag, wire_type, v, at) matches Err(e) && e.0 == kind
}

/// A number that is passed over.
proof fn lemma_number_len(tag: u32, v: u64, t: Seq<u8>)
    ensures
        wire::field_len(
            WireType::Varint,
            tag,
            wire::varint_bytes(v as nat) + t,
            wire::RECURSION_LIMIT as nat,
        ) == Some(wire::varint_bytes(v as nat).len()),
        wire::field_len(
            WireType::Varint,
            tag,
            wire::varint_bytes(v as nat) + t,
            (wire::RECURSION_LIMIT - 1) as nat,
        ) == Some(wire::varint_bytes(v as nat).len()),
{
    wire::lemma_varint_round_trip(v, t);
}

/// Bytes that are passed over.
proof fn lemma_run_len(tag: u32, p: Seq<u8>, t: Seq<u8>)
    requires
        p.len() <= u64::MAX,
    ensures
        wire::field_len(
            WireType::LengthDelimited,
            tag,
            wire::delimited(p) + t,
            wire::RECURSION_LIMIT as nat,
        ) == Some(wire::delimited(p).len()),
        wire::field_len(
            WireType::LengthDelimited,
            tag,
            wire::delimited(p) + t,
            (wire::RECURSION_LIMIT - 1) as nat,
        ) == Some(wire::delimited(p).len()),
{
    round_trip::lemma_delimited(p, t, 0);
}

/// A field of a slot update sets what it is the field of and nothing else, and the last one counts.
/// Fields with other tags change nothing.
pub proof fn law_slot_field(m: SlotModel, at: nat, v: u64, p: Seq<u8>, other: u32)
    requires
        p.len() <= u64::MAX,
        4 < other <= wire::MAX_TAG,
    ensures
        leads::<UpdateOneofLimitedDecodeSlot>(
            m,
            at,
            wire::varint_field(1, v),
            SlotModel { slot: v, ..m },
        ),
        leads::<UpdateOneofLimitedDecodeSlot>(
            m,
            at,
            wire::varint_field(2, v),
            SlotModel { parent: Some(v), ..m },
        ),
        leads::<UpdateOneofLimitedDecodeSlot>(
            m,
            at,
            wire::varint_field(3, v),
            SlotModel { status: v as i32, ..m },
        ),
        leads::<UpdateOneofLimitedDecodeSlot>(
            m,
            at,
            wire::bytes_field(4, p),
            SlotModel { dead_error: Some(place(at, 4, p)), ..m },
        ),
        leads::<UpdateOneofLimitedDecodeSlot>(m, at, wire::varint_field(other, v), m),
        leads::<UpdateOneofLimitedDecodeSlot>(m, at, wire::bytes_field(other, p), m),
        refused::<UpdateOneofLimitedDecodeSlot>(
            m,
            at,
            1,
            WireType::LengthDelimited,
            wire::delimited(p),
            DecodeErrorKind::UnexpectedWireType,
        ),
        refused::<UpdateOneofLimitedDecodeSlot>(
            m,
            at,
            2,
            WireType::LengthDelimited,
            wire::delimited(p),
            DecodeErrorKind::UnexpectedWireType,
        ),
        refused::<UpdateOneofLimitedDecodeSlot>(
            m,
            at,
            3,
            WireType::LengthDelimited,
            wire::delimited(p),
            DecodeErrorKind::UnexpectedWireType,
        ),
        refused::<UpdateOneofLimitedDecodeSlot>(
            m,
            at,
            4,
            WireType::Varint,
            wire::varint_bytes(v as nat),
            DecodeErrorKind::UnexpectedWireType,
        ),
{
    assert(
        leads::<UpdateOneofLimitedDecodeSlot>(
            m,
            at,
            wire::varint_field(1, v),
            SlotModel { slot: v, ..m },
        )
    ) by {
        let w = wire::varint_bytes(v as nat);
        assert forall|t: Seq<u8>|
            #[trigger] UpdateOneofLimitedDecodeSlot::step(
                m,
                1,
                WireType::Varint,
                w + t,
                at + wire::key_bytes(1, WireType::Varint).len(),
            ) == Ok::<(SlotModel, nat), Failure>((SlotModel { slot: v, ..m }, w.len())) by {
            wire::lemma_varint_round_trip(v, t);
            lemma_number_len(1, v, t);
        }
        round_trip::lemma_leads_field::<UpdateOneofLimitedDecodeSlot>(
            m,
            at,
            1,
            WireType::Varint,
            w,
            SlotModel { slot: v, ..m },
        );
    }
    assert(
        leads::<UpdateOneofLimitedDecodeSlot>(
            m,
            at,
            wire::varint_field(2, v),
            SlotModel { parent: Some(v), ..m },
        )
    ) by {
        let w = wire::varint_bytes(v as nat);
        assert forall|t: Seq<u8>|
            #[trigger] UpdateOneofLimitedDecodeSlot::step(
                m,
                2,
                WireType::Varint,
                w + t,
                at + wire::key_bytes(2, WireType::Varint).len(),
            ) == Ok::<(SlotModel, nat), Failure>((SlotModel { parent: Some(v), ..m }, w.len())) by {
            wire::lemma_varint_round_trip(v, t);
            lemma_number_len(2, v, t);
        }
        round_trip::lemma_leads_field::<UpdateOneofLimitedDecodeSlot>(
            m,
            at,
            2,
            WireType::Varint,
            w,
            SlotModel { parent: Some(v), ..m },
        );
    }
    assert(
        leads::<UpdateOneofLimitedDecodeSlot>(
            m,
            at,
            wire::varint_field(3, v),
            SlotModel { status: v as i32, ..m },
        )
    ) by {
        let w = wire::varint_bytes(v as nat);
        assert forall|t: Seq<u8>|
            #[trigger] UpdateOneofLimitedDecodeSlot::step(
                m,
                3,
                WireType::Varint,
                w + t,
                at + wire::key_bytes(3, WireType::Varint).len(),
            ) == Ok::<(SlotModel, nat), Failure>(
                (SlotModel { status: v as i32, ..m }, w.len()),
            ) by {
            wire::lemma_varint_round_trip(v, t);
            lemma_number_len(3, v, t);
        }
        round_trip::lemma_leads_field::<UpdateOneofLimitedDecodeSlot>(
            m,
            at,
            3,
            WireType::Varint,
            w,
            SlotModel { status: v as i32, ..m },
        );
    }
    assert(
        leads::<UpdateOneofLimitedDecodeSlot>(
            m,
            at,
            wire::bytes_field(4, p),
            SlotModel { dead_error: Some(place(at, 4, p)), ..m },
        )
    ) by {
        let w = wire::delimited(p);
        let k = wire::key_bytes(4, WireType::LengthDelimited);
        assert(wire::bytes_field(4, p) =~= k + w);
        assert forall|t: Seq<u8>|
            #[trigger] UpdateOneofLimitedDecodeSlot::step(
                m,
                4,
                WireType::LengthDelimited,
                w + t,
                at + k.len(),
            )
                == Ok::<(SlotModel, nat), Failure>(
                    (SlotModel { dead_error: Some(place(at, 4, p)), ..m }, w.len()),
                ) by {
            round_trip::lemma_delimited(p, t, at + k.len());
            round_trip::lemma_delimited(p, t, 0);
            lemma_run_len(4, p, t);
        }
        round_trip::lemma_leads_field::<UpdateOneofLimitedDecodeSlot>(
            m,
            at,
            4,
            WireType::LengthDelimited,
            w,
            SlotModel { dead_error: Some(place(at, 4, p)), ..m },
        );
    }
    assert(leads::<UpdateOneofLimitedDecodeSlot>(m, at, wire::varint_field(other, v), m)) by {
        let w = wire::varint_bytes(v as nat);
        assert forall|t: Seq<u8>|
            #[trigger] UpdateOneofLimitedDecodeSlot::step(
                m,
                other,
                WireType::Varint,
                w + t,
                at + wire::key_bytes(other, WireType::Varint).len(),
            ) == Ok::<(SlotModel, nat), Failure>((m, w.len())) by {
            wire::lemma_varint_round_trip(v, t);
            lemma_number_len(other, v, t);
        }
        round_trip::lemma_leads_field::<UpdateOneofLimitedDecodeSlot>(
            m,
            at,
            other,
            WireType::Varint,
            w,
            m,
        );
    }
    assert(leads::<UpdateOneofLimitedDecodeSlot>(m, at, wire::bytes_field(other, p), m)) by {
        let w = wire::delimited(p);
        let k = wire::key_bytes(other, WireType::LengthDelimited);
        assert(wire::bytes_field(other, p) =~= k + w);
        assert forall|t: Seq<u8>|
            #[trigger] UpdateOneofLimitedDecodeSlot::step(
                m,
                other,
                WireType::LengthDelimited,
                w + t,
                at + k.len(),
            )
                == Ok::<(SlotModel, nat), Failure>((m, w.len())) by {
            round_trip::lemma_delimited(p, t, at + k.len());
            round_trip::lemma_delimited(p, t, 0);
            lemma_run_len(other, p, t);
        }
        round_trip::lemma_leads_field::<UpdateOneofLimitedDecodeSlot>(
            m,
            at,
            other,
            WireType::LengthDelimited,
            w,
            m,
        );
    }
}

/// A field of an entry update sets what it is the field of and nothing else, and the last one counts.
/// Fields with other tags change nothing.
pub proof fn law_entry_field(
    m: UpdateOneofLimitedDecodeEntry,
    at: nat,
    v: u64,
    p: Seq<u8>,
    other: u32,
)
    requires
        p.len() <= u64::MAX,
        6 < other <= wire::MAX_TAG,
    ensures
        leads::<UpdateOneofLimitedDecodeEntry>(
            m,
            at,
            wire::varint_field(1, v),
            UpdateOneofLimitedDecodeEntry { slot: v, ..m },
        ),
        leads::<UpdateOneofLimitedDecodeEntry>(
            m,
            at,
            wire::varint_field(2, v),
            UpdateOneofLimitedDecodeEntry { index: v, ..m },
        ),
        leads::<UpdateOneofLimitedDecodeEntry>(m, at, wire::varint_field(3, v), m),
        leads::<UpdateOneofLimitedDecodeEntry>(
            m,
            at,
            wire::varint_field(5, v),
            UpdateOneofLimitedDecodeEntry { executed_transaction_count: v, ..m },
        ),
        leads::<UpdateOneofLimitedDecodeEntry>(m, at, wire::varint_field(6, v), m),
        leads::<UpdateOneofLimitedDecodeEntry>(m, at, wire::bytes_field(4, p), m),
        leads::<UpdateOneofLimitedDecodeEntry>(m, at, wire::varint_field(other, v), m),
        leads::<UpdateOneofLimitedDecodeEntry>(m, at, wire::bytes_field(other, p), m),
        refused::<UpdateOneofLimitedDecodeEntry>(
            m,
            at,
            1,
            WireType::LengthDelimited,
            wire::delimited(p),
            DecodeErrorKind::UnexpectedWireType,
        ),
        refused::<UpdateOneofLimitedDecodeEntry>(
            m,
            at,
            2,
            WireType::LengthDelimited,
            wire::delimited(p),
            DecodeErrorKind::UnexpectedWireType,
        ),
        refused::<UpdateOneofLimitedDecodeEntry>(
            m,
            at,
            3,
            WireType::LengthDelimited,
            wire::delimited(p),
            DecodeErrorKind::UnexpectedWireType,
        ),
        refused::<UpdateOneofLimitedDecodeEntry>(
            m,
            at,
            5,
            WireType::LengthDelimited,
            wire::delimited(p),
            DecodeErrorKind::UnexpectedWireType,
        ),
        refused::<UpdateOneofLimitedDecodeEntry>(
            m,
            at,
            6,
            WireType::LengthDelimited,
            wire::delimited(p),
            DecodeErrorKind::UnexpectedWireType,
        ),
        refused::<UpdateOneofLimitedDecodeEntry>(
            m,
            at,
            4,
            WireType::Varint,
            wire::varint_bytes(v as nat),
            DecodeErrorKind::UnexpectedWireType,
        ),
{
    assert(
        leads::<UpdateOneofLimitedDecodeEntry>(
            m,
            at,
            wire::varint_field(1, v),
            UpdateOneofLimitedDecodeEntry { slot: v, ..m },
        )
    ) by {
        let w = wire::varint_bytes(v as nat);
        assert forall|t: Seq<u8>|
            #[trigger] UpdateOneofLimitedDecodeEntry::step(
                m,
                1,
                WireType::Varint,
                w + t,
                at + wire::key_bytes(1, WireType::Varint).len(),
            ) == Ok::<(UpdateOneofLimitedDecodeEntry, nat), Failure>(
                (UpdateOneofLimitedDecodeEntry { slot: v, ..m }, w.len()),
            ) by {
            wire::lemma_varint_round_trip(v, t);
            lemma_number_len(1, v, t);
        }
        round_trip::lemma_leads_field::<UpdateOneofLimitedDecodeEntry>(
            m,
            at,
            1,
            WireType::Varint,
            w,
            UpdateOneofLimitedDecodeEntry { slot: v, ..m },
        );
    }
    assert(
        leads::<UpdateOneofLimitedDecodeEntry>(
            m,
            at,
            wire::varint_field(2, v),
            UpdateOneofLimitedDecodeEntry { index: v, ..m },
        )
    ) by {
        let w = wire::varint_bytes(v as nat);
        assert forall|t: Seq<u8>|
            #[trigger] UpdateOneofLimitedDecodeEntry::step(
                m,
                2,
                WireType::Varint,
                w + t,
                at + wire::key_bytes(2, WireType::Varint).len(),
            ) == Ok::<(UpdateOneofLimitedDecodeEntry, nat), Failure>(
                (UpdateOneofLimitedDecodeEntry { index: v, ..m }, w.len()),
            ) by {
            wire::lemma_varint_round_trip(v, t);
            lemma_number_len(2, v, t);
        }
        round_trip::lemma_leads_field::<UpdateOneofLimitedDecodeEntry>(
            m,
            at,
            2,
            WireType::Varint,
            w,
            UpdateOneofLimitedDecodeEntry { index: v, ..m },
        );
    }
    assert(leads::<UpdateOneofLimitedDecodeEntry>(m, at, wire::varint_field(3, v), m)) by {
        let w = wire::varint_bytes(v as nat);
        assert forall|t: Seq<u8>|
            #[trigger] UpdateOneofLimitedDecodeEntry::step(
                m,
                3,
                WireType::Varint,
                w + t,
                at + wire::key_bytes(3, WireType::Varint).len(),
            ) == Ok::<(UpdateOneofLimitedDecodeEntry, nat), Failure>((m, w.len())) by {
            wire::lemma_varint_round_trip(v, t);
            lemma_number_len(3, v, t);
        }
        round_trip::lemma_leads_field::<UpdateOneofLimitedDecodeEntry>(
            m,
            at,
            3,
            WireType::Varint,
            w,
            m,
        );
    }
    assert(
        leads::<UpdateOneofLimitedDecodeEntry>(
            m,
            at,
            wire::varint_field(5, v),
            UpdateOneofLimitedDecodeEntry { executed_transaction_count: v, ..m },
        )
    ) by {
        let w = wire::varint_bytes(v as nat);
        assert forall|t: Seq<u8>|
            #[trigger] UpdateOneofLimitedDecodeEntry::step(
                m,
                5,
                WireType::Varint,
                w + t,
                at + wire::key_bytes(5, WireType::Varint).len(),
            ) == Ok::<(UpdateOneofLimitedDecodeEntry, nat), Failure>(
                (UpdateOneofLimitedDecodeEntry { executed_transaction_count: v, ..m }, w.len()),
            ) by {
            wire::lemma_varint_round_trip(v, t);
            lemma_number_len(5, v, t);
        }
        round_trip::lemma_leads_field::<UpdateOneofLimitedDecodeEntry>(
            m,
            at,
            5,
            WireType::Varint,
            w,
            UpdateOneofLimitedDecodeEntry { executed_transaction_count: v, ..m },
        );
    }
    assert(leads::<UpdateOneofLimitedDecodeEntry>(m, at, wire::varint_field(6, v), m)) by {
        let w = wire::varint_bytes(v as nat);
        assert forall|t: Seq<u8>|
            #[trigger] UpdateOneofLimitedDecodeEntry::step(
                m,
                6,
                WireType::Varint,
                w + t,
                at + wire::key_bytes(6, WireType::Varint).len(),
            ) == Ok::<(UpdateOneofLimitedDecodeEntry, nat), Failure>((m, w.len())) by {
            wire::lemma_varint_round_trip(v, t);
            lemma_number_len(6, v, t);
        }
        round_trip::lemma_leads_field::<UpdateOneofLimitedDecodeEntry>(
            m,
            at,
            6,
            WireType::Varint,
            w,
            m,
        );
    }
    assert(leads::<UpdateOneofLimitedDecodeEntry>(m, at, wire::bytes_field(4, p), m)) by {
        let w = wire::delimited(p);
        let k = wire::key_bytes(4, WireType::LengthDelimited);
        assert(wire::bytes_field(4, p) =~= k + w);
        assert forall|t: Seq<u8>|
            #[trigger] UpdateOneofLimitedDecodeEntry::step(
                m,
                4,
                WireType::LengthDelimited,
                w + t,
                at + k.len(),
            )
                == Ok::<(UpdateOneofLimitedDecodeEntry, nat), Failure>((m, w.len())) by {
            round_trip::lemma_delimited(p, t, at + k.len());
            round_trip::lemma_delimited(p, t, 0);
            lemma_run_len(4, p, t);
        }
        round_trip::lemma_leads_field::<UpdateOneofLimitedDecodeEntry>(
            m,
            at,
            4,
            WireType::LengthDelimited,
            w,
            m,
        );
    }
    assert(leads::<UpdateOneofLimitedDecodeEntry>(m, at, wire::varint_field(other, v), m)) by {
        let w = wire::varint_bytes(v as nat);
        assert forall|t: Seq<u8>|
            #[trigger] UpdateOneofLimitedDecodeEntry::step(
                m,
                other,
                WireType::Varint,
                w + t,
                at + wire::key_bytes(other, WireType::Varint).len(),
            ) == Ok::<(UpdateOneofLimitedDecodeEntry, nat), Failure>((m, w.len())) by {
            wire::lemma_varint_round_trip(v, t);
            lemma_number_len(other, v, t);
        }
        round_trip::lemma_leads_field::<UpdateOneofLimitedDecodeEntry>(
            m,
            at,
            other,
            WireType::Varint,
            w,
            m,
        );
    }
    assert(leads::<UpdateOneofLimitedDecodeEntry>(m, at, wire::bytes_field(other, p), m)) by {
        let w = wire::delimited(p);
        let k = wire::key_bytes(other, WireType::LengthDelimited);
        assert(wire::bytes_field(other, p) =~= k + w);
        assert forall|t: Seq<u8>|
            #[trigger] UpdateOneofLimitedDecodeEntry::step(
                m,
                other,
                WireType::LengthDelimited,
                w + t,
                at + k.len(),
            )
                == Ok::<(UpdateOneofLimitedDecodeEntry, nat), Failure>((m, w.len())) by {
            round_trip::lemma_delimited(p, t, at + k.len());
            round_trip::lemma_delimited(p, t, 0);
            lemma_run_len(other, p, t);
        }
        round_trip::lemma_leads_field::<UpdateOneofLimitedDecodeEntry>(
            m,
            at,
            other,
            WireType::LengthDelimited,
            w,
            m,
        );
    }
}

/// A field of a transaction update sets what it is the field of and nothing else, and the last one
/// counts. Fields with other tags change nothing.
pub proof fn law_transaction_field(m: TransactionModel, at: nat, v: u64, p: Seq<u8>, other: u32)
    requires
        p.len() <= u64::MAX,
        2 < other <= wire::MAX_TAG,
    ensures
        leads::<UpdateOneofLimitedDecodeTransaction>(
            m,
            at,
            wire::varint_field(2, v),
            TransactionModel { slot: v, ..m },
        ),
        leads::<UpdateOneofLimitedDecodeTransaction>(
            m,
            at,
            wire::bytes_field(1, p),
            TransactionModel { transaction: Some(place(at, 1, p)), ..m },
        ),
        leads::<UpdateOneofLimitedDecodeTransaction>(m, at, wire::varint_field(other, v), m),
        leads::<UpdateOneofLimitedDecodeTransaction>(m, at, wire::bytes_field(other, p), m),
        refused::<UpdateOneofLimitedDecodeTransaction>(
            m,
            at,
            2,
            WireType::LengthDelimited,
            wire::delimited(p),
            DecodeErrorKind::UnexpectedWireType,
        ),
        refused::<UpdateOneofLimitedDecodeTransaction>(
            m,
            at,
            1,
            WireType::Varint,
            wire::varint_bytes(v as nat),
            DecodeErrorKind::UnexpectedWireType,
        ),
{
    assert(
        leads::<UpdateOneofLimitedDecodeTransaction>(
            m,
            at,
            wire::varint_field(2, v),
            TransactionModel { slot: v, ..m },
        )
    ) by {
        let w = wire::varint_bytes(v as nat);
        assert forall|t: Seq<u8>|
            #[trigger] UpdateOneofLimitedDecodeTransaction::step(
                m,
                2,
                WireType::Varint,
                w + t,
                at + wire::key_bytes(2, WireType::Varint).len(),
            ) == Ok::<(TransactionModel, nat), Failure>(
                (TransactionModel { slot: v, ..m }, w.len()),
            ) by {
            wire::lemma_varint_round_trip(v, t);
            lemma_number_len(2, v, t);
        }
        round_trip::lemma_leads_field::<UpdateOneofLimitedDecodeTransaction>(
            m,
            at,
            2,
            WireType::Varint,
            w,
            TransactionModel { slot: v, ..m },
        );
    }
    assert(
        leads::<UpdateOneofLimitedDecodeTransaction>(
            m,
            at,
            wire::bytes_field(1, p),
            TransactionModel { transaction: Some(place(at, 1, p)), ..m },
        )
    ) by {
        let w = wire::delimited(p);
        let k = wire::key_bytes(1, WireType::LengthDelimited);
        assert(wire::bytes_field(1, p) =~= k + w);
        assert forall|t: Seq<u8>|
            #[trigger] UpdateOneofLimitedDecodeTransaction::step(
                m,
                1,
                WireType::LengthDelimited,
                w + t,
                at + k.len(),
            )
                == Ok::<(TransactionModel, nat), Failure>(
                    (TransactionModel { transaction: Some(place(at, 1, p)), ..m }, w.len()),
                ) by {
            round_trip::lemma_delimited(p, t, at + k.len());
            round_trip::lemma_delimited(p, t, 0);
            lemma_run_len(1, p, t);
        }
        round_trip::lemma_leads_field::<UpdateOneofLimitedDecodeTransaction>(
            m,
            at,
            1,
            WireType::LengthDelimited,
            w,
            TransactionModel { transaction: Some(place(at, 1, p)), ..m },
        );
    }
    assert(
        leads::<UpdateOneofLimitedDecodeTransaction>(m, at, wire::varint_field(other, v), m)
    ) by {
        let w = wire::varint_bytes(v as nat);
        assert forall|t: Seq<u8>|
            #[trigger] UpdateOneofLimitedDecodeTransaction::step(
                m,
                other,
                WireType::Varint,
                w + t,
                at + wire::key_bytes(other, WireType::Varint).len(),
            ) == Ok::<(TransactionModel, nat), Failure>((m, w.len())) by {
            wire::lemma_varint_round_trip(v, t);
            lemma_number_len(other, v, t);
        }
        round_trip::lemma_leads_field::<UpdateOneofLimitedDecodeTransaction>(
            m,
            at,
            other,
            WireType::Varint,
            w,
            m,
        );
    }
    assert(leads::<UpdateOneofLimitedDecodeTransaction>(m, at, wire::bytes_field(other, p), m)) by {
        let w = wire::delimited(p);
        let k = wire::key_bytes(other, WireType::LengthDelimited);
        assert(wire::bytes_field(other, p) =~= k + w);
        assert forall|t: Seq<u8>|
            #[trigger] UpdateOneofLimitedDecodeTransaction::step(
                m,
                other,
                WireType::LengthDelimited,
                w + t,
                at + k.len(),
            )
                == Ok::<(TransactionModel, nat), Failure>((m, w.len())) by {
            round_trip::lemma_delimited(p, t, at + k.len());
            round_trip::lemma_delimited(p, t, 0);
            lemma_run_len(other, p, t);
        }
        round_trip::lemma_leads_field::<UpdateOneofLimitedDecodeTransaction>(
            m,
            at,
            other,
            WireType::LengthDelimited,
            w,
            m,
        );
    }
}

/// A signature, a vote or an index of a transaction sets just that, and the last one counts. A
/// signature has 64 bytes. Fields with other tags change nothing.
pub proof fn law_transaction_info_field(
    m: TransactionInfoModel,
    at: nat,
    v: u64,
    p: Seq<u8>,
    other: u32,
)
    requires
        p.len() <= u64::MAX,
        5 < other <= wire::MAX_TAG,
    ensures
        leads::<UpdateOneofLimitedDecodeTransactionInfo>(
            m,
            at,
            wire::varint_field(2, v),
            TransactionInfoModel { is_vote: v != 0, ..m },
        ),
        leads::<UpdateOneofLimitedDecodeTransactionInfo>(
            m,
            at,
            wire::varint_field(5, v),
            TransactionInfoModel { index: v, ..m },
        ),
        p.len() == 64 ==> leads::<UpdateOneofLimitedDecodeTransactionInfo>(
            m,
            at,
            wire::bytes_field(1, p),
            TransactionInfoModel { signature: Some(place(at, 1, p).start), ..m },
        ),
        p.len() != 64 ==> refused::<UpdateOneofLimitedDecodeTransactionInfo>(
            m,
            at,
            1,
            WireType::LengthDelimited,
            wire::delimited(p),
            DecodeErrorKind::InvalidSignatureLength,
        ),
        leads::<UpdateOneofLimitedDecodeTransactionInfo>(m, at, wire::varint_field(other, v), m),
        leads::<UpdateOneofLimitedDecodeTransactionInfo>(m, at, wire::bytes_field(other, p), m),
        refused::<UpdateOneofLimitedDecodeTransactionInfo>(
            m,
            at,
            2,
            WireType::LengthDelimited,
            wire::delimited(p),
            DecodeErrorKind::UnexpectedWireType,
        ),
        refused::<UpdateOneofLimitedDecodeTransactionInfo>(
            m,
            at,
            5,
            WireType::LengthDelimited,
            wire::delimited(p),
            DecodeErrorKind::UnexpectedWireType,
        ),
        refused::<UpdateOneofLimitedDecodeTransactionInfo>(
            m,
            at,
            1,
            WireType::Varint,
            wire::varint_bytes(v as nat),
            DecodeErrorKind::UnexpectedWireType,
        ),
        refused::<UpdateOneofLimitedDecodeTransactionInfo>(
            m,
            at,
            3,
            WireType::Varint,
            wire::varint_bytes(v as nat),
            DecodeErrorKind::UnexpectedWireType,
        ),
        refused::<UpdateOneofLimitedDecodeTransactionInfo>(
            m,
            at,
            4,
            WireType::Varint,
            wire::varint_bytes(v as nat),
            DecodeErrorKind::UnexpectedWireType,
        ),
{
    assert(
        leads::<UpdateOneofLimitedDecodeTransactionInfo>(
            m,
            at,
            wire::varint_field(2, v),
            TransactionInfoModel { is_vote: v != 0, ..m },
        )
    ) by {
        let w = wire::varint_bytes(v as nat);
        assert forall|t: Seq<u8>|
            #[trigger] UpdateOneofLimitedDecodeTransactionInfo::step(
                m,
                2,
                WireType::Varint,
                w + t,
                at + wire::key_bytes(2, WireType::Varint).len(),
            ) == Ok::<(TransactionInfoModel, nat), Failure>(
                (TransactionInfoModel { is_vote: v != 0, ..m }, w.len()),
            ) by {
            wire::lemma_varint_round_trip(v, t);
            lemma_number_len(2, v, t);
        }
        round_trip::lemma_leads_field::<UpdateOneofLimitedDecodeTransactionInfo>(
            m,
            at,
            2,
            WireType::Varint,
            w,
            TransactionInfoModel { is_vote: v != 0, ..m },
        );
    }
    assert(
        leads::<UpdateOneofLimitedDecodeTransactionInfo>(
            m,
            at,
            wire::varint_field(5, v),
            TransactionInfoModel { index: v, ..m },
        )
    ) by {
        let w = wire::varint_bytes(v as nat);
        assert forall|t: Seq<u8>|
            #[trigger] UpdateOneofLimitedDecodeTransactionInfo::step(
                m,
                5,
                WireType::Varint,
                w + t,
                at + wire::key_bytes(5, WireType::Varint).len(),
            ) == Ok::<(TransactionInfoModel, nat), Failure>(
                (TransactionInfoModel { index: v, ..m }, w.len()),
            ) by {
            wire::lemma_varint_round_trip(v, t);
            lemma_number_len(5, v, t);
        }
        round_trip::lemma_leads_field::<UpdateOneofLimitedDecodeTransactionInfo>(
            m,
            at,
            5,
            WireType::Varint,
            w,
            TransactionInfoModel { index: v, ..m },
        );
    }
    if p.len() == 64 {
        assert(
            leads::<UpdateOneofLimitedDecodeTransactionInfo>(
                m,
                at,
                wire::bytes_field(1, p),
                TransactionInfoModel { signature: Some(place(at, 1, p).start), ..m },
            )
        ) by {
            let w = wire::delimited(p);
            let k = wire::key_bytes(1, WireType::LengthDelimited);
            assert(wire::bytes_field(1, p) =~= k + w);
            assert forall|t: Seq<u8>|
                #[trigger] UpdateOneofLimitedDecodeTransactionInfo::step(
                    m,
                    1,
                    WireType::LengthDelimited,
                    w + t,
                    at + k.len(),
                )
                    == Ok::<(TransactionInfoModel, nat), Failure>(
                        (TransactionInfoModel { signature: Some(place(
                            at,
                            1,
                            p,
                        ).start), ..m }, w.len()),
                    ) by {
                round_trip::lemma_delimited(p, t, at + k.len());
                round_trip::lemma_delimited(p, t, 0);
                lemma_run_len(1, p, t);
            }
            round_trip::lemma_leads_field::<UpdateOneofLimitedDecodeTransactionInfo>(
                m,
                at,
                1,
                WireType::LengthDelimited,
                w,
                TransactionInfoModel { signature: Some(place(at, 1, p).start), ..m },
            );
        }
    } else {
        round_trip::lemma_delimited(p, Seq::empty(), at);
        round_trip::lemma_delimited(p, Seq::empty(), 0);
        assert(wire::delimited(p) + Seq::<u8>::empty() =~= wire::delimited(p));
    }
    assert(
        leads::<UpdateOneofLimitedDecodeTransactionInfo>(m, at, wire::varint_field(other, v), m)
    ) by {
        let w = wire::varint_bytes(v as nat);
        assert forall|t: Seq<u8>|
            #[trigger] UpdateOneofLimitedDecodeTransactionInfo::step(
                m,
                other,
                WireType::Varint,
                w + t,
                at + wire::key_bytes(other, WireType::Varint).len(),
            ) == Ok::<(TransactionInfoModel, nat), Failure>((m, w.len())) by {
            wire::lemma_varint_round_trip(v, t);
            lemma_number_len(other, v, t);
        }
        round_trip::lemma_leads_field::<UpdateOneofLimitedDecodeTransactionInfo>(
            m,
            at,
            other,
            WireType::Varint,
            w,
            m,
        );
    }
    assert(
        leads::<UpdateOneofLimitedDecodeTransactionInfo>(m, at, wire::bytes_field(other, p), m)
    ) by {
        let w = wire::delimited(p);
        let k = wire::key_bytes(other, WireType::LengthDelimited);
        assert(wire::bytes_field(other, p) =~= k + w);
        assert forall|t: Seq<u8>|
            #[trigger] UpdateOneofLimitedDecodeTransactionInfo::step(
                m,
                other,
                WireType::LengthDelimited,
                w + t,
                at + k.len(),
            )
                == Ok::<(TransactionInfoModel, nat), Failure>((m, w.len())) by {
            round_trip::lemma_delimited(p, t, at + k.len());
            round_trip::lemma_delimited(p, t, 0);
            lemma_run_len(other, p, t);
        }
        round_trip::lemma_leads_field::<UpdateOneofLimitedDecodeTransactionInfo>(
            m,
            at,
            other,
            WireType::LengthDelimited,
            w,
            m,
        );
    }
}

/// Each key of a transaction is one more of its keys, and has 32 bytes. Fields with other tags change
/// nothing.
pub proof fn law_message_keys_field(
    m: TransactionInfoModel,
    at: nat,
    v: u64,
    p: Seq<u8>,
    other: u32,
)
    requires
        p.len() <= u64::MAX,
        2 < other <= wire::MAX_TAG,
    ensures
        p.len() == 32 ==> leads::<TransactionMessageFields>(
            m,
            at,
            wire::bytes_field(2, p),
            TransactionInfoModel { account_keys: m.account_keys.insert(p), ..m },
        ),
        p.len() != 32 ==> refused::<TransactionMessageFields>(
            m,
            at,
            2,
            WireType::LengthDelimited,
            wire::delimited(p),
            DecodeErrorKind::InvalidPubkeyLength,
        ),
        leads::<TransactionMessageFields>(m, at, wire::varint_field(other, v), m),
        leads::<TransactionMessageFields>(m, at, wire::bytes_field(other, p), m),
        refused::<TransactionMessageFields>(
            m,
            at,
            2,
            WireType::Varint,
            wire::varint_bytes(v as nat),
            DecodeErrorKind::UnexpectedWireType,
        ),
{
    if p.len() == 32 {
        assert(
            leads::<TransactionMessageFields>(
                m,
                at,
                wire::bytes_field(2, p),
                TransactionInfoModel { account_keys: m.account_keys.insert(p), ..m },
            )
        ) by {
            let w = wire::delimited(p);
            let k = wire::key_bytes(2, WireType::LengthDelimited);
            assert(wire::bytes_field(2, p) =~= k + w);
            assert forall|t: Seq<u8>|
                #[trigger] TransactionMessageFields::step(
                    m,
                    2,
                    WireType::LengthDelimited,
                    w + t,
                    at + k.len(),
                )
                    == Ok::<(TransactionInfoModel, nat), Failure>(
                        (TransactionInfoModel { account_keys: m.account_keys.insert(
                            p,
                        ), ..m }, w.len()),
                    ) by {
                round_trip::lemma_delimited(p, t, at + k.len());
                round_trip::lemma_delimited(p, t, 0);
                lemma_run_len(2, p, t);
            }
            round_trip::lemma_leads_field::<TransactionMessageFields>(
                m,
                at,
                2,
                WireType::LengthDelimited,
                w,
                TransactionInfoModel { account_keys: m.account_keys.insert(p), ..m },
            );
        }
    } else {
        round_trip::lemma_delimited(p, Seq::empty(), at);
        round_trip::lemma_delimited(p, Seq::empty(), 0);
        assert(wire::delimited(p) + Seq::<u8>::empty() =~= wire::delimited(p));
    }
    assert(leads::<TransactionMessageFields>(m, at, wire::varint_field(other, v), m)) by {
        let w = wire::varint_bytes(v as nat);
        assert forall|t: Seq<u8>|
            #[trigger] TransactionMessageFields::step(
                m,
                other,
                WireType::Varint,
                w + t,
                at + wire::key_bytes(other, WireType::Varint).len(),
            ) == Ok::<(TransactionInfoModel, nat), Failure>((m, w.len())) by {
            wire::lemma_varint_round_trip(v, t);
            lemma_number_len(other, v, t);
        }
        round_trip::lemma_leads_field::<TransactionMessageFields>(
            m,
            at,
            other,
            WireType::Varint,
            w,
            m,
        );
    }
    assert(leads::<TransactionMessageFields>(m, at, wire::bytes_field(other, p), m)) by {
        let w = wire::delimited(p);
        let k = wire::key_bytes(other, WireType::LengthDelimited);
        assert(wire::bytes_field(other, p) =~= k + w);
        assert forall|t: Seq<u8>|
            #[trigger] TransactionMessageFields::step(
                m,
                other,
                WireType::LengthDelimited,
                w + t,
                at + k.len(),
            )
                == Ok::<(TransactionInfoModel, nat), Failure>((m, w.len())) by {
            round_trip::lemma_delimited(p, t, at + k.len());
            round_trip::lemma_delimited(p, t, 0);
            lemma_run_len(other, p, t);
        }
        round_trip::lemma_leads_field::<TransactionMessageFields>(
            m,
            at,
            other,
            WireType::LengthDelimited,
            w,
            m,
        );
    }
}

/// The error of a transaction is set, and each key that it loaded is one more of its keys, and has 32
/// bytes. Fields with other tags change nothing.
pub proof fn law_meta_keys_field(m: TransactionInfoModel, at: nat, v: u64, p: Seq<u8>, other: u32)
    requires
        p.len() <= u64::MAX,
        13 < other <= wire::MAX_TAG,
    ensures
        leads::<TransactionMetaFields>(
            m,
            at,
            wire::bytes_field(1, p),
            TransactionInfoModel { err: Some(place(at, 1, p)), ..m },
        ),
        p.len() == 32 ==> leads::<TransactionMetaFields>(
            m,
            at,
            wire::bytes_field(12, p),
            TransactionInfoModel { account_keys: m.account_keys.insert(p), ..m },
        ),
        p.len() != 32 ==> refused::<TransactionMetaFields>(
            m,
            at,
            12,
            WireType::LengthDelimited,
            wire::delimited(p),
            DecodeErrorKind::InvalidPubkeyLength,
        ),
        p.len() == 32 ==> leads::<TransactionMetaFields>(
            m,
            at,
            wire::bytes_field(13, p),
            TransactionInfoModel { account_keys: m.account_keys.insert(p), ..m },
        ),
        p.len() != 32 ==> refused::<TransactionMetaFields>(
            m,
            at,
            13,
            WireType::LengthDelimited,
            wire::delimited(p),
            DecodeErrorKind::InvalidPubkeyLength,
        ),
        leads::<TransactionMetaFields>(m, at, wire::varint_field(other, v), m),
        leads::<TransactionMetaFields>(m, at, wire::bytes_field(other, p), m),
        refused::<TransactionMetaFields>(
            m,
            at,
            1,
            WireType::Varint,
            wire::varint_bytes(v as nat),
            DecodeErrorKind::UnexpectedWireType,
        ),
        refused::<TransactionMetaFields>(
            m,
            at,
            12,
            WireType::Varint,
            wire::varint_bytes(v as nat),
            DecodeErrorKind::UnexpectedWireType,
        ),
        refused::<TransactionMetaFields>(
            m,
            at,
            13,
            WireType::Varint,
            wire::varint_bytes(v as nat),
            DecodeErrorKind::UnexpectedWireType,
        ),
{
    assert(
        leads::<TransactionMetaFields>(
            m,
            at,
            wire::bytes_field(1, p),
            TransactionInfoModel { err: Some(place(at, 1, p)), ..m },
        )
    ) by {
        let w = wire::delimited(p);
        let k = wire::key_bytes(1, WireType::LengthDelimited);
        assert(wire::bytes_field(1, p) =~= k + w);
        assert forall|t: Seq<u8>|
            #[trigger] TransactionMetaFields::step(
                m,
                1,
                WireType::LengthDelimited,
                w + t,
                at + k.len(),
            )
                == Ok::<(TransactionInfoModel, nat), Failure>(
                    (TransactionInfoModel { err: Some(place(at, 1, p)), ..m }, w.len()),
                ) by {
            round_trip::lemma_delimited(p, t, at + k.len());
            round_trip::lemma_delimited(p, t, 0);
            lemma_run_len(1, p, t);
        }
        round_trip::lemma_leads_field::<TransactionMetaFields>(
            m,
            at,
            1,
            WireType::LengthDelimited,
            w,
            TransactionInfoModel { err: Some(place(at, 1, p)), ..m },
        );
    }
    if p.len() == 32 {
        assert(
            leads::<TransactionMetaFields>(
                m,
                at,
                wire::bytes_field(12, p),
                TransactionInfoModel { account_keys: m.account_keys.insert(p), ..m },
            )
        ) by {
            let w = wire::delimited(p);
            let k = wire::key_bytes(12, WireType::LengthDelimited);
            assert(wire::bytes_field(12, p) =~= k + w);
            assert forall|t: Seq<u8>|
                #[trigger] TransactionMetaFields::step(
                    m,
                    12,
                    WireType::LengthDelimited,
                    w + t,
                    at + k.len(),
                )
                    == Ok::<(TransactionInfoModel, nat), Failure>(
                        (TransactionInfoModel { account_keys: m.account_keys.insert(
                            p,
                        ), ..m }, w.len()),
                    ) by {
                round_trip::lemma_delimited(p, t, at + k.len());
                round_trip::lemma_delimited(p, t, 0);
                lemma_run_len(12, p, t);
            }
            round_trip::lemma_leads_field::<TransactionMetaFields>(
                m,
                at,
                12,
                WireType::LengthDelimited,
                w,
                TransactionInfoModel { account_keys: m.account_keys.insert(p), ..m },
            );
        }
    } else {
        round_trip::lemma_delimited(p, Seq::empty(), at);
        round_trip::lemma_delimited(p, Seq::empty(), 0);
        assert(wire::delimited(p) + Seq::<u8>::empty() =~= wire::delimited(p));
    }
    if p.len() == 32 {
        assert(
            leads::<TransactionMetaFields>(
                m,
                at,
                wire::bytes_field(13, p),
                TransactionInfoModel { account_keys: m.account_keys.insert(p), ..m },
            )
        ) by {
            let w = wire::delimited(p);
            let k = wire::key_bytes(13, WireType::LengthDelimited);
            assert(wire::bytes_field(13, p) =~= k + w);
            assert forall|t: Seq<u8>|
                #[trigger] TransactionMetaFields::step(
                    m,
                    13,
                    WireType::LengthDelimited,
                    w + t,
                    at + k.len(),
                )
                    == Ok::<(TransactionInfoModel, nat), Failure>(
                        (TransactionInfoModel { account_keys: m.account_keys.insert(
                            p,
                        ), ..m }, w.len()),
                    ) by {
                round_trip::lemma_delimited(p, t, at + k.len());
                round_trip::lemma_delimited(p, t, 0);
                lemma_run_len(13, p, t);
            }
            round_trip::lemma_leads_field::<TransactionMetaFields>(
                m,
                at,
                13,
                WireType::LengthDelimited,
                w,
                TransactionInfoModel { account_keys: m.account_keys.insert(p), ..m },
            );
        }
    } else {
        round_trip::lemma_delimited(p, Seq::empty(), at);
        round_trip::lemma_delimited(p, Seq::empty(), 0);
        assert(wire::delimited(p) + Seq::<u8>::empty() =~= wire::delimited(p));
    }
    assert(leads::<TransactionMetaFields>(m, at, wire::varint_field(other, v), m)) by {
        let w = wire::varint_bytes(v as nat);
        assert forall|t: Seq<u8>|
            #[trigger] TransactionMetaFields::step(
                m,
                other,
                WireType::Varint,
                w + t,
                at + wire::key_bytes(other, WireType::Varint).len(),
            ) == Ok::<(TransactionInfoModel, nat), Failure>((m, w.len())) by {
            wire::lemma_varint_round_trip(v, t);
            lemma_number_len(other, v, t);
        }
        round_trip::lemma_leads_field::<TransactionMetaFields>(
            m,
            at,
            other,
            WireType::Varint,
            w,
            m,
        );
    }
    assert(leads::<TransactionMetaFields>(m, at, wire::bytes_field(other, p), m)) by {
        let w = wire::delimited(p);
        let k = wire::key_bytes(other, WireType::LengthDelimited);
        assert(wire::bytes_field(other, p) =~= k + w);
        assert forall|t: Seq<u8>|
            #[trigger] TransactionMetaFields::step(
                m,
                other,
                WireType::LengthDelimited,
                w + t,
                at + k.len(),
            )
                == Ok::<(TransactionInfoModel, nat), Failure>((m, w.len())) by {
            round_trip::lemma_delimited(p, t, at + k.len());
            round_trip::lemma_delimited(p, t, 0);
            lemma_run_len(other, p, t);
        }
        round_trip::lemma_leads_field::<TransactionMetaFields>(
            m,
            at,
            other,
            WireType::LengthDelimited,
            w,
            m,
        );
    }
}

/// A field of an account sets what it is the field of and nothing else, and the last one counts. Keys
/// have 32 bytes, and a signature has 64. Fields with other tags change nothing.
pub proof fn law_account_info_field(m: AccountModel, at: nat, v: u64, p: Seq<u8>, other: u32)
    requires
        p.len() <= u64::MAX,
        8 < other <= wire::MAX_TAG,
    ensures
        leads::<AccountInfoFields>(
            m,
            at,
            wire::varint_field(2, v),
            AccountModel { lamports: v, ..m },
        ),
        leads::<AccountInfoFields>(
            m,
            at,
            wire::varint_field(4, v),
            AccountModel { executable: v != 0, ..m },
        ),
        leads::<AccountInfoFields>(
            m,
            at,
            wire::varint_field(5, v),
            AccountModel { rent_epoch: v, ..m },
        ),
        leads::<AccountInfoFields>(
            m,
            at,
            wire::varint_field(7, v),
            AccountModel { write_version: Some(
                at + wire::key_bytes(7, WireType::Varint).len(),
            ), ..m },
        ),
        p.len() == 32 ==> leads::<AccountInfoFields>(
            m,
            at,
            wire::bytes_field(1, p),
            AccountModel { pubkey: p, ..m },
        ),
        p.len() != 32 ==> refused::<AccountInfoFields>(
            m,
            at,
            1,
            WireType::LengthDelimited,
            wire::delimited(p),
            DecodeErrorKind::InvalidPubkeyLength,
        ),
        p.len() == 32 ==> leads::<AccountInfoFields>(
            m,
            at,
            wire::bytes_field(3, p),
            AccountModel { owner: p, ..m },
        ),
        p.len() != 32 ==> refused::<AccountInfoFields>(
            m,
            at,
            3,
            WireType::LengthDelimited,
            wire::delimited(p),
            DecodeErrorKind::InvalidPubkeyLength,
        ),
        leads::<AccountInfoFields>(
            m,
            at,
            wire::bytes_field(6, p),
            AccountModel { data: place(at, 6, p), ..m },
        ),
        p.len() == 64 ==> leads::<AccountInfoFields>(
            m,
            at,
            wire::bytes_field(8, p),
            AccountModel { txn_signature: Some(place(at, 8, p).start), ..m },
        ),
        p.len() != 64 ==> refused::<AccountInfoFields>(
            m,
            at,
            8,
            WireType::LengthDelimited,
            wire::delimited(p),
            DecodeErrorKind::InvalidSignatureLength,
        ),
        leads::<AccountInfoFields>(m, at, wire::varint_field(other, v), m),
        leads::<AccountInfoFields>(m, at, wire::bytes_field(other, p), m),
        refused::<AccountInfoFields>(
            m,
            at,
            2,
            WireType::LengthDelimited,
            wire::delimited(p),
            DecodeErrorKind::UnexpectedWireType,
        ),
        refused::<AccountInfoFields>(
            m,
            at,
            4,
            WireType::LengthDelimited,
            wire::delimited(p),
            DecodeErrorKind::UnexpectedWireType,
        ),
        refused::<AccountInfoFields>(
            m,
            at,
            5,
            WireType::LengthDelimited,
            wire::delimited(p),
            DecodeErrorKind::UnexpectedWireType,
        ),
        refused::<AccountInfoFields>(
            m,
            at,
            7,
            WireType::LengthDelimited,
            wire::delimited(p),
            DecodeErrorKind::UnexpectedWireType,
        ),
        refused::<AccountInfoFields>(
            m,
            at,
            1,
            WireType::Varint,
            wire::varint_bytes(v as nat),
            DecodeErrorKind::UnexpectedWireType,
        ),
        refused::<AccountInfoFields>(
            m,
            at,
            3,
            WireType::Varint,
            wire::varint_bytes(v as nat),
            DecodeErrorKind::UnexpectedWireType,
        ),
        refused::<AccountInfoFields>(
            m,
            at,
            6,
            WireType::Varint,
            wire::varint_bytes(v as nat),
            DecodeErrorKind::UnexpectedWireType,
        ),
        refused::<AccountInfoFields>(
            m,
            at,
            8,
            WireType::Varint,
            wire::varint_bytes(v as nat),
            DecodeErrorKind::UnexpectedWireType,
        ),
{
    assert(
        leads::<AccountInfoFields>(
            m,
            at,
            wire::varint_field(2, v),
            AccountModel { lamports: v, ..m },
        )
    ) by {
        let w = wire::varint_bytes(v as nat);
        assert forall|t: Seq<u8>|
            #[trigger] AccountInfoFields::step(
                m,
                2,
                WireType::Varint,
                w + t,
                at + wire::key_bytes(2, WireType::Varint).len(),
            ) == Ok::<(AccountModel, nat), Failure>(
                (AccountModel { lamports: v, ..m }, w.len()),
            ) by {
            wire::lemma_varint_round_trip(v, t);
            lemma_number_len(2, v, t);
        }
        round_trip::lemma_leads_field::<AccountInfoFields>(
            m,
            at,
            2,
            WireType::Varint,
            w,
            AccountModel { lamports: v, ..m },
        );
    }
    assert(
        leads::<AccountInfoFields>(
            m,
            at,
            wire::varint_field(4, v),
            AccountModel { executable: v != 0, ..m },
        )
    ) by {
        let w = wire::varint_bytes(v as nat);
        assert forall|t: Seq<u8>|
            #[trigger] AccountInfoFields::step(
                m,
                4,
                WireType::Varint,
                w + t,
                at + wire::key_bytes(4, WireType::Varint).len(),
            ) == Ok::<(AccountModel, nat), Failure>(
                (AccountModel { executable: v != 0, ..m }, w.len()),
            ) by {
            wire::lemma_varint_round_trip(v, t);
            lemma_number_len(4, v, t);
        }
        round_trip::lemma_leads_field::<AccountInfoFields>(
            m,
            at,
            4,
            WireType::Varint,
            w,
            AccountModel { executable: v != 0, ..m },
        );
    }
    assert(
        leads::<AccountInfoFields>(
            m,
            at,
            wire::varint_field(5, v),
            AccountModel { rent_epoch: v, ..m },
        )
    ) by {
        let w = wire::varint_bytes(v as nat);
        assert forall|t: Seq<u8>|
            #[trigger] AccountInfoFields::step(
                m,
                5,
                WireType::Varint,
                w + t,
                at + wire::key_bytes(5, WireType::Varint).len(),
            ) == Ok::<(AccountModel, nat), Failure>(
                (AccountModel { rent_epoch: v, ..m }, w.len()),
            ) by {
            wire::lemma_varint_round_trip(v, t);
            lemma_number_len(5, v, t);
        }
        round_trip::lemma_leads_field::<AccountInfoFields>(
            m,
            at,
            5,
            WireType::Varint,
            w,
            AccountModel { rent_epoch: v, ..m },
        );
    }
    assert(
        leads::<AccountInfoFields>(
            m,
            at,
            wire::varint_field(7, v),
            AccountModel { write_version: Some(
                at + wire::key_bytes(7, WireType::Varint).len(),
            ), ..m },
        )
    ) by {
        let w = wire::varint_bytes(v as nat);
        assert forall|t: Seq<u8>|
            #[trigger] AccountInfoFields::step(
                m,
                7,
                WireType::Varint,
                w + t,
                at + wire::key_bytes(7, WireType::Varint).len(),
            ) == Ok::<(AccountModel, nat), Failure>(
                (AccountModel { write_version: Some(at + wire::key_bytes(
                    7,
                    WireType::Varint,
                ).len()), ..m }, w.len()),
            ) by {
            wire::lemma_varint_round_trip(v, t);
            lemma_number_len(7, v, t);
        }
        round_trip::lemma_leads_field::<AccountInfoFields>(
            m,
            at,
            7,
            WireType::Varint,
            w,
            AccountModel { write_version: Some(
                at + wire::key_bytes(7, WireType::Varint).len(),
            ), ..m },
        );
    }
    if p.len() == 32 {
        assert(
            leads::<AccountInfoFields>(
                m,
                at,
                wire::bytes_field(1, p),
                AccountModel { pubkey: p, ..m },
            )
        ) by {
            let w = wire::delimited(p);
            let k = wire::key_bytes(1, WireType::LengthDelimited);
            assert(wire::bytes_field(1, p) =~= k + w);
            assert forall|t: Seq<u8>|
                #[trigger] AccountInfoFields::step(
                    m,
                    1,
                    WireType::LengthDelimited,
                    w + t,
                    at + k.len(),
                )
                    == Ok::<(AccountModel, nat), Failure>(
                        (AccountModel { pubkey: p, ..m }, w.len()),
                    ) by {
                round_trip::lemma_delimited(p, t, at + k.len());
                round_trip::lemma_delimited(p, t, 0);
                lemma_run_len(1, p, t);
            }
            round_trip::lemma_leads_field::<AccountInfoFields>(
                m,
                at,
                1,
                WireType::LengthDelimited,
                w,
                AccountModel { pubkey: p, ..m },
            );
        }
    } else {
        round_trip::lemma_delimited(p, Seq::empty(), at);
        round_trip::lemma_delimited(p, Seq::empty(), 0);
        assert(wire::delimited(p) + Seq::<u8>::empty() =~= wire::delimited(p));
    }
    if p.len() == 32 {
        assert(
            leads::<AccountInfoFields>(
                m,
                at,
                wire::bytes_field(3, p),
                AccountModel { owner: p, ..m },
            )
        ) by {
            let w = wire::delimited(p);
            let k = wire::key_bytes(3, WireType::LengthDelimited);
            assert(wire::bytes_field(3, p) =~= k + w);
            assert forall|t: Seq<u8>|
                #[trigger] AccountInfoFields::step(
                    m,
                    3,
                    WireType::LengthDelimited,
                    w + t,
                    at + k.len(),
                )
                    == Ok::<(AccountModel, nat), Failure>(
                        (AccountModel { owner: p, ..m }, w.len()),
                    ) by {
                round_trip::lemma_delimited(p, t, at + k.len());
                round_trip::lemma_delimited(p, t, 0);
                lemma_run_len(3, p, t);
            }
            round_trip::lemma_leads_field::<AccountInfoFields>(
                m,
                at,
                3,
                WireType::LengthDelimited,
                w,
                AccountModel { owner: p, ..m },
            );
        }
    } else {
        round_trip::lemma_delimited(p, Seq::empty(), at);
        round_trip::lemma_delimited(p, Seq::empty(), 0);
        assert(wire::delimited(p) + Seq::<u8>::empty() =~= wire::delimited(p));
    }
    assert(
        leads::<AccountInfoFields>(
            m,
            at,
            wire::bytes_field(6, p),
            AccountModel { data: place(at, 6, p), ..m },
        )
    ) by {
        let w = wire::delimited(p);
        let k = wire::key_bytes(6, WireType::LengthDelimited);
        assert(wire::bytes_field(6, p) =~= k + w);
        assert forall|t: Seq<u8>|
            #[trigger] AccountInfoFields::step(m, 6, WireType::LengthDelimited, w + t, at + k.len())
                == Ok::<(AccountModel, nat), Failure>(
                    (AccountModel { data: place(at, 6, p), ..m }, w.len()),
                ) by {
            round_trip::lemma_delimited(p, t, at + k.len());
            round_trip::lemma_delimited(p, t, 0);
            lemma_run_len(6, p, t);
        }
        round_trip::lemma_leads_field::<AccountInfoFields>(
            m,
            at,
            6,
            WireType::LengthDelimited,
            w,
            AccountModel { data: place(at, 6, p), ..m },
        );
    }
    if p.len() == 64 {
        assert(
            leads::<AccountInfoFields>(
                m,
                at,
                wire::bytes_field(8, p),
                AccountModel { txn_signature: Some(place(at, 8, p).start), ..m },
            )
        ) by {
            let w = wire::delimited(p);
            let k = wire::key_bytes(8, WireType::LengthDelimited);
            assert(wire::bytes_field(8, p) =~= k + w);
            assert forall|t: Seq<u8>|
                #[trigger] AccountInfoFields::step(
                    m,
                    8,
                    WireType::LengthDelimited,
                    w + t,
                    at + k.len(),
                )
                    == Ok::<(AccountModel, nat), Failure>(
                        (AccountModel { txn_signature: Some(place(at, 8, p).start), ..m }, w.len()),
                    ) by {
                round_trip::lemma_delimited(p, t, at + k.len());
                round_trip::lemma_delimited(p, t, 0);
                lemma_run_len(8, p, t);
            }
            round_trip::lemma_leads_field::<AccountInfoFields>(
                m,
                at,
                8,
                WireType::LengthDelimited,
                w,
                AccountModel { txn_signature: Some(place(at, 8, p).start), ..m },
            );
        }
    } else {
        round_trip::lemma_delimited(p, Seq::empty(), at);
        round_trip::lemma_delimited(p, Seq::empty(), 0);
        assert(wire::delimited(p) + Seq::<u8>::empty() =~= wire::delimited(p));
    }
    assert(leads::<AccountInfoFields>(m, at, wire::varint_field(other, v), m)) by {
        let w = wire::varint_bytes(v as nat);
        assert forall|t: Seq<u8>|
            #[trigger] AccountInfoFields::step(
                m,
                other,
                WireType::Varint,
                w + t,
                at + wire::key_bytes(other, WireType::Varint).len(),
            ) == Ok::<(AccountModel, nat), Failure>((m, w.len())) by {
            wire::lemma_varint_round_trip(v, t);
            lemma_number_len(other, v, t);
        }
        round_trip::lemma_leads_field::<AccountInfoFields>(m, at, other, WireType::Varint, w, m);
    }
    assert(leads::<AccountInfoFields>(m, at, wire::bytes_field(other, p), m)) by {
        let w = wire::delimited(p);
        let k = wire::key_bytes(other, WireType::LengthDelimited);
        assert(wire::bytes_field(other, p) =~= k + w);
        assert forall|t: Seq<u8>|
            #[trigger] AccountInfoFields::step(
                m,
                other,
                WireType::LengthDelimited,
                w + t,
                at + k.len(),
            )
                == Ok::<(AccountModel, nat), Failure>((m, w.len())) by {
            round_trip::lemma_delimited(p, t, at + k.len());
            round_trip::lemma_delimited(p, t, 0);
            lemma_run_len(other, p, t);
        }
        round_trip::lemma_leads_field::<AccountInfoFields>(
            m,
            at,
            other,
            WireType::LengthDelimited,
            w,
            m,
        );
    }
}

/// The slot of an account update and whether it came at startup are set by the last field of each.
/// Fields with other tags change nothing.
pub proof fn law_account_field(m: AccountModel, at: nat, v: u64, p: Seq<u8>, other: u32)
    requires
        p.len() <= u64::MAX,
        3 < other <= wire::MAX_TAG,
    ensures
        leads::<UpdateOneofLimitedDecodeAccount>(
            m,
            at,
            wire::varint_field(2, v),
            AccountModel { slot: v, ..m },
        ),
        leads::<UpdateOneofLimitedDecodeAccount>(
            m,
            at,
            wire::varint_field(3, v),
            AccountModel { is_startup: v != 0, ..m },
        ),
        leads::<UpdateOneofLimitedDecodeAccount>(m, at, wire::varint_field(other, v), m),
        leads::<UpdateOneofLimitedDecodeAccount>(m, at, wire::bytes_field(other, p), m),
        refused::<UpdateOneofLimitedDecodeAccount>(
            m,
            at,
            2,
            WireType::LengthDelimited,
            wire::delimited(p),
            DecodeErrorKind::UnexpectedWireType,
        ),
        refused::<UpdateOneofLimitedDecodeAccount>(
            m,
            at,
            3,
            WireType::LengthDelimited,
            wire::delimited(p),
            DecodeErrorKind::UnexpectedWireType,
        ),
        refused::<UpdateOneofLimitedDecodeAccount>(
            m,
            at,
            1,
            WireType::Varint,
            wire::varint_bytes(v as nat),
            DecodeErrorKind::UnexpectedWireType,
        ),
{
    assert(
        leads::<UpdateOneofLimitedDecodeAccount>(
            m,
            at,
            wire::varint_field(2, v),
            AccountModel { slot: v, ..m },
        )
    ) by {
        let w = wire::varint_bytes(v as nat);
        assert forall|t: Seq<u8>|
            #[trigger] UpdateOneofLimitedDecodeAccount::step(
                m,
                2,
                WireType::Varint,
                w + t,
                at + wire::key_bytes(2, WireType::Varint).len(),
            ) == Ok::<(AccountModel, nat), Failure>((AccountModel { slot: v, ..m }, w.len())) by {
            wire::lemma_varint_round_trip(v, t);
            lemma_number_len(2, v, t);
        }
        round_trip::lemma_leads_field::<UpdateOneofLimitedDecodeAccount>(
            m,
            at,
            2,
            WireType::Varint,
            w,
            AccountModel { slot: v, ..m },
        );
    }
    assert(
        leads::<UpdateOneofLimitedDecodeAccount>(
            m,
            at,
            wire::varint_field(3, v),
            AccountModel { is_startup: v != 0, ..m },
        )
    ) by {
        let w = wire::varint_bytes(v as nat);
        assert forall|t: Seq<u8>|
            #[trigger] UpdateOneofLimitedDecodeAccount::step(
                m,
                3,
                WireType::Varint,
                w + t,
                at + wire::key_bytes(3, WireType::Varint).len(),
            ) == Ok::<(AccountModel, nat), Failure>(
                (AccountModel { is_startup: v != 0, ..m }, w.len()),
            ) by {
            wire::lemma_varint_round_trip(v, t);
            lemma_number_len(3, v, t);
        }
        round_trip::lemma_leads_field::<UpdateOneofLimitedDecodeAccount>(
            m,
            at,
            3,
            WireType::Varint,
            w,
            AccountModel { is_startup: v != 0, ..m },
        );
    }
    assert(leads::<UpdateOneofLimitedDecodeAccount>(m, at, wire::varint_field(other, v), m)) by {
        let w = wire::varint_bytes(v as nat);
        assert forall|t: Seq<u8>|
            #[trigger] UpdateOneofLimitedDecodeAccount::step(
                m,
                other,
                WireType::Varint,
                w + t,
                at + wire::key_bytes(other, WireType::Varint).len(),
            ) == Ok::<(AccountModel, nat), Failure>((m, w.len())) by {
            wire::lemma_varint_round_trip(v, t);
            lemma_number_len(other, v, t);
        }
        round_trip::lemma_leads_field::<UpdateOneofLimitedDecodeAccount>(
            m,
            at,
            other,
            WireType::Varint,
            w,
            m,
        );
    }
    assert(leads::<UpdateOneofLimitedDecodeAccount>(m, at, wire::bytes_field(other, p), m)) by {
        let w = wire::delimited(p);
        let k = wire::key_bytes(other, WireType::LengthDelimited);
        assert(wire::bytes_field(other, p) =~= k + w);
        assert forall|t: Seq<u8>|
            #[trigger] UpdateOneofLimitedDecodeAccount::step(
                m,
                other,
                WireType::LengthDelimited,
                w + t,
                at + k.len(),
            )
                == Ok::<(AccountModel, nat), Failure>((m, w.len())) by {
            round_trip::lemma_delimited(p, t, at + k.len());
            round_trip::lemma_delimited(p, t, 0);
            lemma_run_len(other, p, t);
        }
        round_trip::lemma_leads_field::<UpdateOneofLimitedDecodeAccount>(
            m,
            at,
            other,
            WireType::LengthDelimited,
            w,
            m,
        );
    }
}

/// The seconds and the nanoseconds of a time are set by the last field of each. Fields with other
/// tags change nothing.
pub proof fn law_time_field(m: Timestamp, at: nat, v: u64, p: Seq<u8>, other: u32)
    requires
        p.len() <= u64::MAX,
        2 < other <= wire::MAX_TAG,
    ensures
        leads::<TimestampFields>(
            m,
            at,
            wire::varint_field(1, v),
            Timestamp { seconds: v as i64, ..m },
        ),
        leads::<TimestampFields>(
            m,
            at,
            wire::varint_field(2, v),
            Timestamp { nanos: v as i32, ..m },
        ),
        leads::<TimestampFields>(m, at, wire::varint_field(other, v), m),
        leads::<TimestampFields>(m, at, wire::bytes_field(other, p), m),
        refused::<TimestampFields>(
            m,
            at,
            1,
            WireType::LengthDelimited,
            wire::delimited(p),
            DecodeErrorKind::UnexpectedWireType,
        ),
        refused::<TimestampFields>(
            m,
            at,
            2,
            WireType::LengthDelimited,
            wire::delimited(p),
            DecodeErrorKind::UnexpectedWireType,
        ),
{
    assert(
        leads::<TimestampFields>(
            m,
            at,
            wire::varint_field(1, v),
            Timestamp { seconds: v as i64, ..m },
        )
    ) by {
        let w = wire::varint_bytes(v as nat);
        assert forall|t: Seq<u8>|
            #[trigger] TimestampFields::step(
                m,
                1,
                WireType::Varint,
                w + t,
                at + wire::key_bytes(1, WireType::Varint).len(),
            ) == Ok::<(Timestamp, nat), Failure>(
                (Timestamp { seconds: v as i64, ..m }, w.len()),
            ) by {
            wire::lemma_varint_round_trip(v, t);
            lemma_number_len(1, v, t);
        }
        round_trip::lemma_leads_field::<TimestampFields>(
            m,
            at,
            1,
            WireType::Varint,
            w,
            Timestamp { seconds: v as i64, ..m },
        );
    }
    assert(
        leads::<TimestampFields>(
            m,
            at,
            wire::varint_field(2, v),
            Timestamp { nanos: v as i32, ..m },
        )
    ) by {
        let w = wire::varint_bytes(v as nat);
        assert forall|t: Seq<u8>|
            #[trigger] TimestampFields::step(
                m,
                2,
                WireType::Varint,
                w + t,
                at + wire::key_bytes(2, WireType::Varint).len(),
            ) == Ok::<(Timestamp, nat), Failure>((Timestamp { nanos: v as i32, ..m }, w.len())) by {
            wire::lemma_varint_round_trip(v, t);
            lemma_number_len(2, v, t);
        }
        round_trip::lemma_leads_field::<TimestampFields>(
            m,
            at,
            2,
            WireType::Varint,
            w,
            Timestamp { nanos: v as i32, ..m },
        );
    }
    assert(leads::<TimestampFields>(m, at, wire::varint_field(other, v), m)) by {
        let w = wire::varint_bytes(v as nat);
        assert forall|t: Seq<u8>|
            #[trigger] TimestampFields::step(
                m,
                other,
                WireType::Varint,
                w + t,
                at + wire::key_bytes(other, WireType::Varint).len(),
            ) == Ok::<(Timestamp, nat), Failure>((m, w.len())) by {
            wire::lemma_varint_round_trip(v, t);
            lemma_number_len(other, v, t);
        }
        round_trip::lemma_leads_field::<TimestampFields>(m, at, other, WireType::Varint, w, m);
    }
    assert(leads::<TimestampFields>(m, at, wire::bytes_field(other, p), m)) by {
        let w = wire::delimited(p);
        let k = wire::key_bytes(other, WireType::LengthDelimited);
        assert(wire::bytes_field(other, p) =~= k + w);
        assert forall|t: Seq<u8>|
            #[trigger] TimestampFields::step(
                m,
                other,
                WireType::LengthDelimited,
                w + t,
                at + k.len(),
            )
                == Ok::<(Timestamp, nat), Failure>((m, w.len())) by {
            round_trip::lemma_delimited(p, t, at + k.len());
            round_trip::lemma_delimited(p, t, 0);
            lemma_run_len(other, p, t);
        }
        round_trip::lemma_leads_field::<TimestampFields>(
            m,
            at,
            other,
            WireType::LengthDelimited,
            w,
            m,
        );
    }
}

/// An envelope holds one update: another one takes its place, and the same kind twice is refused. The
/// names of filters change nothing, and what is none of the stream is noted.
pub proof fn law_envelope_field(m: UpdateModel, at: nat, tag: u32, p: Seq<u8>)
    requires
        p.len() <= u64::MAX,
        1 <= tag <= wire::MAX_TAG,
    ensures
        tag == 1 ==> leads::<SubscribeUpdateLimitedDecode>(m, at, wire::bytes_field(tag, p), m),
        2 <= tag <= 10 && (m.update matches Some((was, _)) ==> was != tag) ==> leads::<
            SubscribeUpdateLimitedDecode,
        >(
            m,
            at,
            wire::bytes_field(tag, p),
            UpdateModel { update: Some((tag, place(at, tag, p))), ..m },
        ),
        2 <= tag <= 10 && (m.update matches Some((was, _)) && was == tag) ==> refused::<
            SubscribeUpdateLimitedDecode,
        >(
            m,
            at,
            tag,
            WireType::LengthDelimited,
            wire::delimited(p),
            DecodeErrorKind::MergeNotSupported,
        ),
        100 <= tag <= 105 ==> leads::<SubscribeUpdateLimitedDecode>(
            m,
            at,
            wire::bytes_field(tag, p),
            UpdateModel { richat_update: true, ..m },
        ),
        11 < tag && !(100 <= tag <= 105) ==> leads::<SubscribeUpdateLimitedDecode>(
            m,
            at,
            wire::bytes_field(tag, p),
            m,
        ),
{
    let w = wire::delimited(p);
    let k = wire::key_bytes(tag, WireType::LengthDelimited);
    assert(wire::bytes_field(tag, p) =~= k + w);
    let m1 = if tag == 1 {
        m
    } else if 2 <= tag <= 10 {
        UpdateModel { update: Some((tag, place(at, tag, p))), ..m }
    } else if 100 <= tag <= 105 {
        UpdateModel { richat_update: true, ..m }
    } else {
        m
    };
    if 2 <= tag <= 10 && m.update is Some && m.update->Some_0.0 == tag {
        round_trip::lemma_delimited(p, Seq::empty(), at);
        assert(w + Seq::<u8>::empty() =~= w);
    } else if tag != 11 {
        assert forall|t: Seq<u8>|
            #[trigger] SubscribeUpdateLimitedDecode::step(
                m,
                tag,
                WireType::LengthDelimited,
                w + t,
                at + k.len(),
            ) == Ok::<(UpdateModel, nat), Failure>((m1, w.len())) by {
            round_trip::lemma_delimited(p, t, at + k.len());
            lemma_run_len(tag, p, t);
        }
        round_trip::lemma_leads_field::<SubscribeUpdateLimitedDecode>(
            m,
            at,
            tag,
            WireType::LengthDelimited,
            w,
            m1,
        );
    }
}

/// Whether the field is refused for the reason, and the failure names the message and the field.
pub open spec fn cut_off<S: FieldStep>(
    m: S::M,
    at: nat,
    tag: u32,
    wire_type: WireType,
    v: Seq<u8>,
    kind: DecodeErrorKind,
    message: &'static str,
    field: &'static str,
) -> bool {
    S::step(m, tag, wire_type, v, at) matches Err(e) && {
        &&& e.0 == kind
        &&& e.1 == seq![(message, field)]
    }
}

/// A length prefix that counts one byte, and nothing behind it.
proof fn lemma_one()
    ensures
        wire::varint(seq![1u8]) == Some((1u64, 1nat)),
        wire::varint(Seq::<u8>::empty()) is None,
{
    wire::lemma_varint_round_trip(1, Seq::empty());
    assert(wire::varint_bytes(1) + Seq::<u8>::empty() =~= seq![1u8]);
    reveal_with_fuel(wire::varint_from, 2);
}

/// Where the value of a field of a slot update is cut off, the failure names the message and the field.
pub proof fn law_slot_names(m: SlotModel, at: nat)
    ensures
        cut_off::<UpdateOneofLimitedDecodeSlot>(
            m,
            at,
            1,
            WireType::Varint,
            Seq::empty(),
            DecodeErrorKind::InvalidVarint,
            "UpdateOneofLimitedDecodeSlot",
            "slot",
        ),
        cut_off::<UpdateOneofLimitedDecodeSlot>(
            m,
            at,
            2,
            WireType::Varint,
            Seq::empty(),
            DecodeErrorKind::InvalidVarint,
            "UpdateOneofLimitedDecodeSlot",
            "parent",
        ),
        cut_off::<UpdateOneofLimitedDecodeSlot>(
            m,
            at,
            3,
            WireType::Varint,
            Seq::empty(),
            DecodeErrorKind::InvalidVarint,
            "UpdateOneofLimitedDecodeSlot",
            "status",
        ),
        cut_off::<UpdateOneofLimitedDecodeSlot>(
            m,
            at,
            4,
            WireType::LengthDelimited,
            seq![1u8],
            DecodeErrorKind::BufferUnderflow,
            "UpdateOneofLimitedDecodeSlot",
            "dead_error",
        ),
{
    lemma_one();
}

/// Where the value of a field of an entry update is cut off, the failure names the message and the field.
pub proof fn law_entry_names(m: UpdateOneofLimitedDecodeEntry, at: nat)
    ensures
        cut_off::<UpdateOneofLimitedDecodeEntry>(
            m,
            at,
            1,
            WireType::Varint,
            Seq::empty(),
            DecodeErrorKind::InvalidVarint,
            "UpdateOneofLimitedDecodeEntry",
            "slot",
        ),
        cut_off::<UpdateOneofLimitedDecodeEntry>(
            m,
            at,
            2,
            WireType::Varint,
            Seq::empty(),
            DecodeErrorKind::InvalidVarint,
            "UpdateOneofLimitedDecodeEntry",
            "index",
        ),
        cut_off::<UpdateOneofLimitedDecodeEntry>(
            m,
            at,
            3,
            WireType::Varint,
            Seq::empty(),
            DecodeErrorKind::InvalidVarint,
            "UpdateOneofLimitedDecodeEntry",
            "num_hashes",
        ),
        cut_off::<UpdateOneofLimitedDecodeEntry>(
            m,
            at,
            5,
            WireType::Varint,
            Seq::empty(),
            DecodeErrorKind::InvalidVarint,
            "UpdateOneofLimitedDecodeEntry",
            "executed_transaction_count",
        ),
        cut_off::<UpdateOneofLimitedDecodeEntry>(
            m,
            at,
            6,
            WireType::Varint,
            Seq::empty(),
            DecodeErrorKind::InvalidVarint,
            "UpdateOneofLimitedDecodeEntry",
            "starting_transaction_index",
        ),
        cut_off::<UpdateOneofLimitedDecodeEntry>(
            m,
            at,
            4,
            WireType::LengthDelimited,
            seq![1u8],
            DecodeErrorKind::BufferUnderflow,
            "UpdateOneofLimitedDecodeEntry",
            "hash",
        ),
{
    lemma_one();
}

/// Where the value of a field of a transaction update is cut off, the failure names the message and the field.
pub proof fn law_transaction_names(m: TransactionModel, at: nat)
    ensures
        cut_off::<UpdateOneofLimitedDecodeTransaction>(
            m,
            at,
            2,
            WireType::Varint,
            Seq::empty(),
            DecodeErrorKind::InvalidVarint,
            "UpdateOneofLimitedDecodeTransaction",
            "slot",
        ),
        cut_off::<UpdateOneofLimitedDecodeTransaction>(
            m,
            at,
            1,
            WireType::LengthDelimited,
            seq![1u8],
            DecodeErrorKind::BufferUnderflow,
            "UpdateOneofLimitedDecodeTransaction",
            "transaction",
        ),
{
    lemma_one();
}

/// Where the value of a field of a transaction is cut off, the failure names the message and the field.
pub proof fn law_transaction_info_names(m: TransactionInfoModel, at: nat)
    ensures
        cut_off::<UpdateOneofLimitedDecodeTransactionInfo>(
            m,
            at,
            2,
            WireType::Varint,
            Seq::empty(),
            DecodeErrorKind::InvalidVarint,
            "UpdateOneofLimitedDecodeTransactionInfo",
            "is_vote",
        ),
        cut_off::<UpdateOneofLimitedDecodeTransactionInfo>(
            m,
            at,
            5,
            WireType::Varint,
            Seq::empty(),
            DecodeErrorKind::InvalidVarint,
            "UpdateOneofLimitedDecodeTransactionInfo",
            "index",
        ),
        cut_off::<UpdateOneofLimitedDecodeTransactionInfo>(
            m,
            at,
            1,
            WireType::LengthDelimited,
            seq![1u8],
            DecodeErrorKind::BufferUnderflow,
            "UpdateOneofLimitedDecodeTransactionInfo",
            "signature",
        ),
{
    lemma_one();
}

/// Where the value of a field of an account is cut off, the failure names the message and the field.
pub proof fn law_account_info_names(m: AccountModel, at: nat)
    ensures
        cut_off::<AccountInfoFields>(
            m,
            at,
            2,
            WireType::Varint,
            Seq::empty(),
            DecodeErrorKind::InvalidVarint,
            "UpdateOneofLimitedDecodeAccount",
            "lamports",
        ),
        cut_off::<AccountInfoFields>(
            m,
            at,
            4,
            WireType::Varint,
            Seq::empty(),
            DecodeErrorKind::InvalidVarint,
            "UpdateOneofLimitedDecodeAccount",
            "executable",
        ),
        cut_off::<AccountInfoFields>(
            m,
            at,
            5,
            WireType::Varint,
            Seq::empty(),
            DecodeErrorKind::InvalidVarint,
            "UpdateOneofLimitedDecodeAccount",
            "rent_epoch",
        ),
        cut_off::<AccountInfoFields>(
            m,
            at,
            7,
            WireType::Varint,
            Seq::empty(),
            DecodeErrorKind::InvalidVarint,
            "UpdateOneofLimitedDecodeAccount",
            "write_version",
        ),
        cut_off::<AccountInfoFields>(
            m,
            at,
            1,
            WireType::LengthDelimited,
            seq![1u8],
            DecodeErrorKind::BufferUnderflow,
            "UpdateOneofLimitedDecodeAccount",
            "pubkey",
        ),
        cut_off::<AccountInfoFields>(
            m,
            at,
            3,
            WireType::LengthDelimited,
            seq![1u8],
            DecodeErrorKind::BufferUnderflow,
            "UpdateOneofLimitedDecodeAccount",
            "owner",
        ),
        cut_off::<AccountInfoFields>(
            m,
            at,
            6,
            WireType::LengthDelimited,
            seq![1u8],
            DecodeErrorKind::BufferUnderflow,
            "UpdateOneofLimitedDecodeAccount",
            "data",
        ),
        cut_off::<AccountInfoFields>(
            m,
            at,
            8,
            WireType::LengthDelimited,
            seq![1u8],
            DecodeErrorKind::BufferUnderflow,
            "UpdateOneofLimitedDecodeAccount",
            "txn_signature",
        ),
{
    lemma_one();
}

/// Where the value of a field of an account update is cut off, the failure names the message and the field.
pub proof fn law_account_names(m: AccountModel, at: nat)
    ensures
        cut_off::<UpdateOneofLimitedDecodeAccount>(
            m,
            at,
            2,
            WireType::Varint,
            Seq::empty(),
            DecodeErrorKind::InvalidVarint,
            "UpdateOneofLimitedDecodeAccount",
            "slot",
        ),
        cut_off::<UpdateOneofLimitedDecodeAccount>(
            m,
            at,
            3,
            WireType::Varint,
            Seq::empty(),
            DecodeErrorKind::InvalidVarint,
            "UpdateOneofLimitedDecodeAccount",
            "is_startup",
        ),
{
    lemma_one();
}

} // verus!
