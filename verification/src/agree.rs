//! What the two parsers make of the same update, and what an update is decoded to once it is passed on.
use vstd::prelude::*;

use crate::account;
use crate::again;
use crate::codec::Timestamp;
use crate::decode;
use crate::decode::{
    LimitedDecode, Span, TransactionFields, TransactionInfoModel, TransactionMetaFields,
    TransactionModel, UpdateOneofLimitedDecodeTransaction, UpdateOneofLimitedDecodeTransactionInfo,
};
use crate::encode;
use crate::error::Failure;
use crate::fields;
use crate::fields::FieldStep;
use crate::filter;
use crate::geyser;
use crate::geyser::{
    AccountInfoView, AccountView, EntryView, SlotView, TransactionBodyView, TransactionInfoView,
    TransactionMetaView,
};
use crate::limited;
use crate::message;
use crate::message::{MessageView, ParseFailure};
use crate::parser;
use crate::round_trip;
use crate::round_trip::leads;
use crate::stream;
use crate::stream::StreamView;
use crate::update;
use crate::wire;
use crate::wire::WireType;

verus! {

// ---------------------------------------------------------------------------------------------
// Both parsers
// ---------------------------------------------------------------------------------------------

/// Whether two messages, of whatever parser, say the same of what filters and receivers look at.
pub open spec fn agree(a: MessageView, b: MessageView) -> bool {
    match (a, b) {
        (MessageView::Slot(a), MessageView::Slot(b)) => {
            &&& a.slot() == b.slot()
            &&& a.parent() == b.parent()
            &&& a.status() == b.status()
            &&& a.dead_error_bytes() == b.dead_error_bytes()
            &&& a.created_at() == b.created_at()
        },
        (MessageView::Account(a), MessageView::Account(b)) => {
            &&& a.content() == b.content()
            &&& a.created_at() == b.created_at()
        },
        (MessageView::Transaction(a), MessageView::Transaction(b)) => {
            &&& a.slot() == b.slot()
            &&& a.vote() == b.vote()
            &&& a.index() == b.index()
            &&& a.error() == b.error()
            &&& a.account_keys() == b.account_keys()
            &&& a.created_at() == b.created_at()
        },
        (MessageView::Entry(a), MessageView::Entry(b)) => {
            &&& a.slot() == b.slot()
            &&& a.index() == b.index()
            &&& a.executed_transaction_count() == b.executed_transaction_count()
            &&& a.created_at() == b.created_at()
        },
        (MessageView::BlockMeta(a), MessageView::BlockMeta(b)) => {
            &&& a.block_meta() == b.block_meta()
            &&& a.block_height() == b.block_height()
            &&& a.created_at() == b.created_at()
        },
        _ => false,
    }
}

/// Both parsers make the same of an encoded slot update.
pub proof fn law_slot_agrees(m: SlotView, filters: Seq<Seq<char>>, created_at: Timestamp)
    requires
        encode::envelope_bytes(filters, 3, encode::slot_bytes(m), created_at).len() <= u64::MAX,
    ensures
        ({
            let data = encode::envelope_bytes(filters, 3, encode::slot_bytes(m), created_at);
            match (
                message::limited_message(data),
                parser::slot_view_message(m, created_at, data.len()),
            ) {
                (Ok(a), Ok(b)) => agree(a, b),
                (Err(a), Err(b)) => a == b,
                _ => false,
            }
        }),
{
    limited::law_limited_slot(m, filters, created_at);
}

/// Both parsers make the same of an encoded account update, where both make a message of it. They do
/// where its keys have 32 bytes and its signature has 64.
pub proof fn law_account_agrees(
    a: AccountInfoView,
    slot: u64,
    is_startup: bool,
    filters: Seq<Seq<char>>,
    created_at: Timestamp,
)
    requires
        encode::envelope_bytes(
            filters,
            2,
            encode::account_bytes(AccountView { account: Some(a), slot, is_startup }),
            created_at,
        ).len() <= u64::MAX,
    ensures
        ({
            let m = AccountView { account: Some(a), slot, is_startup };
            let data = encode::envelope_bytes(filters, 2, encode::account_bytes(m), created_at);
            let x = message::limited_message(data);
            let y = parser::account_view_message(m, created_at, data.len());
            &&& x is Ok && y is Ok ==> agree(x->Ok_0, y->Ok_0)
            &&& round_trip::readable(a) ==> x is Ok && y is Ok
        }),
{
    let m = AccountView { account: Some(a), slot, is_startup };
    let payload = encode::account_bytes(m);
    let data = encode::envelope_bytes(filters, 2, payload, created_at);
    round_trip::law_envelope(filters, 2, payload, created_at);
    let sp = round_trip::payload_place(filters, 2, payload);
    round_trip::law_limited_account(data, sp, created_at);
    assert(account::bytes_at(data, sp) == payload);
    if round_trip::readable(a) {
        round_trip::law_encoded_account(a, slot, is_startup);
    } else if round_trip::keyed(a) {
        round_trip::lemma_bad_signature(a, slot, is_startup);
    }
}

/// Both parsers make the same of an encoded entry update.
pub proof fn law_entry_agrees(m: EntryView, filters: Seq<Seq<char>>, created_at: Timestamp)
    requires
        encode::envelope_bytes(filters, 8, encode::entry_bytes(m), created_at).len() <= u64::MAX,
    ensures
        ({
            let data = encode::envelope_bytes(filters, 8, encode::entry_bytes(m), created_at);
            &&& message::limited_message(data) matches Ok(a) && agree(
                a,
                MessageView::Entry(parser::full_entry(m, created_at, data.len())),
            )
        }),
{
    limited::law_limited_entry(m, filters, created_at);
}

/// Both parsers make the same of the metadata of a block.
pub proof fn law_block_meta_agrees(
    payload: Seq<u8>,
    filters: Seq<Seq<char>>,
    created_at: Timestamp,
)
    requires
        encode::envelope_bytes(filters, 7, payload, created_at).len() <= u64::MAX,
    ensures
        ({
            let data = encode::envelope_bytes(filters, 7, payload, created_at);
            match (
                message::limited_message(data),
                parser::block_meta_message(payload, created_at, data.len()),
            ) {
                (Ok(a), Ok(b)) => agree(a, b),
                (Err(a), Err(b)) => a == b,
                _ => false,
            }
        }),
{
    round_trip::law_envelope(filters, 7, payload, created_at);
}

/// A nested message whose fields turn `m` into `m1`.
proof fn lemma_nested_leads<S: FieldStep>(m: S::M, at: nat, p: Seq<u8>, m1: S::M, t: Seq<u8>)
    requires
        p.len() <= u64::MAX,
        round_trip::leads::<S>(m, at + wire::varint_bytes(p.len()).len(), p, m1),
    ensures
        decode::nested::<S>(m, wire::delimited(p) + t, at, false) == Ok::<(S::M, nat), Failure>(
            (m1, wire::delimited(p).len()),
        ),
{
    let n = wire::varint_bytes(p.len()).len();
    let s = wire::delimited(p) + t;
    round_trip::lemma_delimited(p, t, at);
    assert(s.skip(n as int) =~= p + t);
    assert(fields::fields::<S>(m, p + t, at + n, t.len()) == fields::after(
        fields::fields::<S>(m1, t, at + n + p.len(), t.len()),
        p.len(),
    ));
}

/// The bytes of a transaction before its body.
spec fn upto_vote(m: TransactionInfoView) -> Seq<u8> {
    wire::bytes_field_opt(1, m.signature) + wire::bool_field_opt(2, m.is_vote)
}

/// The bytes of a transaction before its metadata.
spec fn upto_body(m: TransactionInfoView) -> Seq<u8> {
    upto_vote(m) + wire::bytes_field(3, m.transaction->Some_0.encoded)
}

/// The place of the metadata in an encoded transaction.
spec fn meta_place(m: TransactionInfoView) -> nat {
    upto_body(m).len() + wire::key_bytes(4, WireType::LengthDelimited).len()
        + wire::varint_bytes(m.meta->Some_0.encoded.len()).len()
}

/// What a transaction is read as, with the error at the place in its metadata.
spec fn info_model(m: TransactionInfoView, error: Option<Span>) -> TransactionInfoModel {
    let m0 = UpdateOneofLimitedDecodeTransactionInfo::empty();
    let m2 = TransactionInfoModel {
        signature: if m.signature.len() == 0 {
            None
        } else {
            Some(
                wire::key_bytes(1, WireType::LengthDelimited).len() + wire::varint_bytes(
                    m.signature.len(),
                ).len(),
            )
        },
        is_vote: m.is_vote,
        ..m0
    };
    let m3 = geyser::with_keys(m2, geyser::static_keys(m.transaction->Some_0));
    let m4 = geyser::with_meta(
        m3,
        geyser::loaded_keys(m.meta->Some_0),
        error,
        meta_place(m),
    );
    TransactionInfoModel { index: m.index, ..m4 }
}

/// The fields of a transaction are read back.
#[verifier::rlimit(50)]
#[verifier::spinoff_prover]
proof fn lemma_info_fields(m: TransactionInfoView, error: Option<Span>)
    requires
        m.transaction is Some,
        m.meta is Some,
        m.signature.len() == 0 || m.signature.len() == 64,
        encode::transaction_info_bytes(m).len() <= u64::MAX,
        geyser::adds_keys(
            m.transaction->Some_0.encoded,
            geyser::static_keys(m.transaction->Some_0),
        ),
        forall|x: TransactionInfoModel, at: nat|
            #![trigger leads::<TransactionMetaFields>(
                x,
                at,
                m.meta->Some_0.encoded,
                geyser::with_meta(x, geyser::loaded_keys(m.meta->Some_0), error, at),
            )]
            leads::<TransactionMetaFields>(
                x,
                at,
                m.meta->Some_0.encoded,
                geyser::with_meta(x, geyser::loaded_keys(m.meta->Some_0), error, at),
            ),
    ensures
        leads::<UpdateOneofLimitedDecodeTransactionInfo>(
            UpdateOneofLimitedDecodeTransactionInfo::empty(),
            0,
            encode::transaction_info_bytes(m),
            info_model(m, error),
        ),
{
    let body = m.transaction->Some_0.encoded;
    let meta = m.meta->Some_0.encoded;
    let m0 = UpdateOneofLimitedDecodeTransactionInfo::empty();
    let f1 = wire::bytes_field_opt(1, m.signature);
    let f2 = wire::bool_field_opt(2, m.is_vote);
    let f3 = wire::bytes_field(3, body);
    let f4 = wire::bytes_field(4, meta);
    let f5 = wire::varint_field_opt(5, m.index);
    let m1 = TransactionInfoModel {
        signature: if m.signature.len() == 0 {
            None
        } else {
            Some(
                wire::key_bytes(1, WireType::LengthDelimited).len() + wire::varint_bytes(
                    m.signature.len(),
                ).len(),
            )
        },
        ..m0
    };
    let m2 = TransactionInfoModel { is_vote: m.is_vote, ..m1 };
    let m3 = geyser::with_keys(m2, geyser::static_keys(m.transaction->Some_0));
    let m4 = geyser::with_meta(m3, geyser::loaded_keys(m.meta->Some_0), error, meta_place(m));
    let m5 = info_model(m, error);
    assert(body.len() <= f3.len());
    assert(meta.len() <= f4.len());
    assert(encode::transaction_info_bytes(m) == f1 + f2 + f3 + f4 + f5);
    // the signature
    if m.signature.len() == 0 {
        round_trip::lemma_leads_nowhere::<UpdateOneofLimitedDecodeTransactionInfo>(m0, 0);
    } else {
        let v = wire::delimited(m.signature);
        let k = wire::key_bytes(1, WireType::LengthDelimited).len();
        assert forall|t: Seq<u8>|
            #[trigger] UpdateOneofLimitedDecodeTransactionInfo::step(
                m0,
                1,
                WireType::LengthDelimited,
                v + t,
                0 + k,
            ) == Ok::<(TransactionInfoModel, nat), Failure>((m1, v.len())) by {
            round_trip::lemma_delimited(m.signature, t, k);
        }
        round_trip::lemma_leads_field::<UpdateOneofLimitedDecodeTransactionInfo>(
            m0,
            0,
            1,
            WireType::LengthDelimited,
            v,
            m1,
        );
    }
    // the vote
    let at = f1.len();
    if !m.is_vote {
        round_trip::lemma_leads_nowhere::<UpdateOneofLimitedDecodeTransactionInfo>(m1, at);
    } else {
        let v = wire::varint_bytes(1);
        assert forall|t: Seq<u8>|
            #[trigger] UpdateOneofLimitedDecodeTransactionInfo::step(
                m1,
                2,
                WireType::Varint,
                v + t,
                at + wire::key_bytes(2, WireType::Varint).len(),
            ) == Ok::<(TransactionInfoModel, nat), Failure>((m2, v.len())) by {
            wire::lemma_varint_round_trip(1, t);
        }
        round_trip::lemma_leads_field::<UpdateOneofLimitedDecodeTransactionInfo>(
            m1,
            at,
            2,
            WireType::Varint,
            v,
            m2,
        );
    }
    round_trip::lemma_leads_on::<UpdateOneofLimitedDecodeTransactionInfo>(m0, 0, f1, m1, f2, m2);
    // the body
    let at = (f1 + f2).len();
    let v = wire::delimited(body);
    let k = wire::key_bytes(3, WireType::LengthDelimited).len();
    assert forall|t: Seq<u8>|
        #[trigger] UpdateOneofLimitedDecodeTransactionInfo::step(
            m2,
            3,
            WireType::LengthDelimited,
            v + t,
            at + k,
        ) == Ok::<(TransactionInfoModel, nat), Failure>((m3, v.len())) by {
        assert(leads::<TransactionFields>(
            m2,
            at + k + wire::varint_bytes(body.len()).len(),
            body,
            m3,
        ));
        lemma_nested_leads::<TransactionFields>(m2, at + k, body, m3, t);
    }
    round_trip::lemma_leads_field::<UpdateOneofLimitedDecodeTransactionInfo>(
        m2,
        at,
        3,
        WireType::LengthDelimited,
        v,
        m3,
    );
    assert(f3 =~= wire::key_bytes(3, WireType::LengthDelimited) + v);
    round_trip::lemma_leads_on::<UpdateOneofLimitedDecodeTransactionInfo>(
        m0,
        0,
        f1 + f2,
        m2,
        f3,
        m3,
    );
    // the metadata
    let at = (f1 + f2 + f3).len();
    let v = wire::delimited(meta);
    let k = wire::key_bytes(4, WireType::LengthDelimited).len();
    assert forall|t: Seq<u8>|
        #[trigger] UpdateOneofLimitedDecodeTransactionInfo::step(
            m3,
            4,
            WireType::LengthDelimited,
            v + t,
            at + k,
        ) == Ok::<(TransactionInfoModel, nat), Failure>((m4, v.len())) by {
        assert(leads::<TransactionMetaFields>(m3, meta_place(m), meta, m4));
        lemma_nested_leads::<TransactionMetaFields>(m3, at + k, meta, m4, t);
    }
    round_trip::lemma_leads_field::<UpdateOneofLimitedDecodeTransactionInfo>(
        m3,
        at,
        4,
        WireType::LengthDelimited,
        v,
        m4,
    );
    assert(f4 =~= wire::key_bytes(4, WireType::LengthDelimited) + v);
    round_trip::lemma_leads_on::<UpdateOneofLimitedDecodeTransactionInfo>(
        m0,
        0,
        f1 + f2 + f3,
        m3,
        f4,
        m4,
    );
    // the index
    let at = (f1 + f2 + f3 + f4).len();
    if m.index == 0 {
        round_trip::lemma_leads_nowhere::<UpdateOneofLimitedDecodeTransactionInfo>(m4, at);
    } else {
        let v = wire::varint_bytes(m.index as nat);
        assert forall|t: Seq<u8>|
            #[trigger] UpdateOneofLimitedDecodeTransactionInfo::step(
                m4,
                5,
                WireType::Varint,
                v + t,
                at + wire::key_bytes(5, WireType::Varint).len(),
            ) == Ok::<(TransactionInfoModel, nat), Failure>((m5, v.len())) by {
            wire::lemma_varint_round_trip(m.index, t);
        }
        round_trip::lemma_leads_field::<UpdateOneofLimitedDecodeTransactionInfo>(
            m4,
            at,
            5,
            WireType::Varint,
            v,
            m5,
        );
    }
    round_trip::lemma_leads_on::<UpdateOneofLimitedDecodeTransactionInfo>(
        m0,
        0,
        f1 + f2 + f3 + f4,
        m4,
        f5,
        m5,
    );
}

/// The fields of a transaction update are read back.
proof fn lemma_transaction_fields(info: Seq<u8>, slot: u64)
    requires
        info.len() <= u64::MAX,
    ensures
        ({
            let start = wire::key_bytes(1, WireType::LengthDelimited).len() + wire::varint_bytes(
                info.len(),
            ).len();
            let sp = Span { start, end: start + info.len() };
            &&& fields::all_fields::<UpdateOneofLimitedDecodeTransaction>(
                UpdateOneofLimitedDecodeTransaction::empty(),
                encode::transaction_bytes(info, slot),
            ) == Ok::<TransactionModel, Failure>(TransactionModel { transaction: Some(sp), slot })
            &&& sp.end <= encode::transaction_bytes(info, slot).len()
            &&& account::bytes_at(encode::transaction_bytes(info, slot), sp) == info
        }),
{
    let m0 = UpdateOneofLimitedDecodeTransaction::empty();
    let payload = encode::transaction_bytes(info, slot);
    let k = wire::key_bytes(1, WireType::LengthDelimited).len();
    let start = k + wire::varint_bytes(info.len()).len();
    let sp = Span { start, end: start + info.len() };
    let m1 = TransactionModel { transaction: Some(sp), slot: 0 };
    let m2 = TransactionModel { transaction: Some(sp), slot };
    let v = wire::delimited(info);
    assert forall|t: Seq<u8>|
        #[trigger] UpdateOneofLimitedDecodeTransaction::step(
            m0,
            1,
            WireType::LengthDelimited,
            v + t,
            0 + k,
        ) == Ok::<(TransactionModel, nat), Failure>((m1, v.len())) by {
        round_trip::lemma_delimited(info, t, k);
    }
    round_trip::lemma_leads_field::<UpdateOneofLimitedDecodeTransaction>(
        m0,
        0,
        1,
        WireType::LengthDelimited,
        v,
        m1,
    );
    let f1 = wire::bytes_field(1, info);
    let f2 = wire::varint_field_opt(2, slot);
    assert(f1 =~= wire::key_bytes(1, WireType::LengthDelimited) + v);
    let at = f1.len();
    if slot == 0 {
        round_trip::lemma_leads_nowhere::<UpdateOneofLimitedDecodeTransaction>(m1, at);
    } else {
        let v = wire::varint_bytes(slot as nat);
        assert forall|t: Seq<u8>|
            #[trigger] UpdateOneofLimitedDecodeTransaction::step(
                m1,
                2,
                WireType::Varint,
                v + t,
                at + wire::key_bytes(2, WireType::Varint).len(),
            ) == Ok::<(TransactionModel, nat), Failure>((m2, v.len())) by {
            wire::lemma_varint_round_trip(slot, t);
        }
        round_trip::lemma_leads_field::<UpdateOneofLimitedDecodeTransaction>(
            m1,
            at,
            2,
            WireType::Varint,
            v,
            m2,
        );
    }
    round_trip::lemma_leads_on::<UpdateOneofLimitedDecodeTransaction>(m0, 0, f1, m1, f2, m2);
    round_trip::lemma_leads_all::<UpdateOneofLimitedDecodeTransaction>(m0, payload, m2);
    assert(account::bytes_at(payload, sp) =~= info);
}

/// A transaction with a signature of another length than 64 is not read.
proof fn lemma_bad_signature(m: TransactionInfoView)
    requires
        m.signature.len() != 0,
        m.signature.len() != 64,
        encode::transaction_info_bytes(m).len() <= u64::MAX,
    ensures
        fields::all_fields::<UpdateOneofLimitedDecodeTransactionInfo>(
            UpdateOneofLimitedDecodeTransactionInfo::empty(),
            encode::transaction_info_bytes(m),
        ) is Err,
{
    let m0 = UpdateOneofLimitedDecodeTransactionInfo::empty();
    let bytes = encode::transaction_info_bytes(m);
    let k = wire::key_bytes(1, WireType::LengthDelimited);
    let v = wire::delimited(m.signature);
    let f1 = wire::bytes_field_opt(1, m.signature);
    let t = bytes.skip(f1.len() as int);
    assert(f1 =~= k + v);
    assert(m.signature.len() <= f1.len());
    assert(bytes =~= Seq::<u8>::empty() + ((k + v) + t));
    round_trip::lemma_delimited(m.signature, t, k.len());
    round_trip::lemma_leads_nowhere::<UpdateOneofLimitedDecodeTransactionInfo>(m0, 0);
    round_trip::lemma_leads_astray::<UpdateOneofLimitedDecodeTransactionInfo>(
        m0,
        0,
        Seq::empty(),
        m0,
        1,
        WireType::LengthDelimited,
        v,
        t,
        0,
    );
}

/// Both parsers make the same of an encoded transaction update, where both make a message of it. The
/// transaction is one whose keys and error can be read from its encoded parts, as those of every
/// transaction that was decoded.
#[verifier::rlimit(50)]
#[verifier::spinoff_prover]
pub proof fn law_transaction_agrees(
    info: TransactionInfoView,
    slot: u64,
    filters: Seq<Seq<char>>,
    created_at: Timestamp,
)
    requires
        geyser::legible(info),
        encode::envelope_bytes(
            filters,
            4,
            encode::transaction_bytes(encode::transaction_info_bytes(info), slot),
            created_at,
        ).len() <= u64::MAX,
    ensures
        ({
            let payload = encode::transaction_bytes(encode::transaction_info_bytes(info), slot);
            let data = encode::envelope_bytes(filters, 4, payload, created_at);
            let x = message::limited_message(data);
            let y = again::transaction_view_message(info, slot, created_at, data.len());
            &&& x is Ok && y is Ok ==> {
                &&& agree(x->Ok_0, y->Ok_0)
                &&& x->Ok_0->Transaction_0.signed() <==> info.signature.len() > 0
                &&& info.signature.len() > 0 ==> x->Ok_0->Transaction_0.signature() == info.signature
                &&& y->Ok_0->Transaction_0.signature() == info.signature
            }
            &&& y is Ok && (info.signature.len() == 0 || info.signature.len() == 64) ==> x is Ok
        }),
{
    let bytes = encode::transaction_info_bytes(info);
    let payload = encode::transaction_bytes(bytes, slot);
    let data = encode::envelope_bytes(filters, 4, payload, created_at);
    round_trip::law_envelope(filters, 4, payload, created_at);
    let range = round_trip::payload_place(filters, 4, payload);
    assert(bytes.len() <= wire::bytes_field(1, bytes).len());
    lemma_transaction_fields(bytes, slot);
    let start = wire::key_bytes(1, WireType::LengthDelimited).len() + wire::varint_bytes(
        bytes.len(),
    ).len();
    let sp = Span { start, end: start + bytes.len() };
    let place = message::span_in(range, sp);
    assert(account::bytes_at(data, place) =~= account::bytes_at(account::bytes_at(data, range), sp));
    if again::transaction_view_message(info, slot, created_at, data.len()) is Ok {
        if info.signature.len() != 0 && info.signature.len() != 64 {
            lemma_bad_signature(info);
        } else {
            let t = info.transaction->Some_0;
            let meta = info.meta->Some_0;
            let keys = parser::listed_keys(t.account_keys, meta);
            lemma_keys(t, meta);
            let error = choose|error: Option<Span>| #[trigger]
                geyser::holds_error(meta.encoded, error, meta.err) && forall|
                    m: TransactionInfoModel,
                    at: nat,
                |
                    #![trigger leads::<TransactionMetaFields>(
                        m,
                        at,
                        meta.encoded,
                        geyser::with_meta(m, geyser::loaded_keys(meta), error, at),
                    )]
                    leads::<TransactionMetaFields>(
                        m,
                        at,
                        meta.encoded,
                        geyser::with_meta(m, geyser::loaded_keys(meta), error, at),
                    );
            lemma_info_fields(info, error);
            round_trip::lemma_leads_all::<UpdateOneofLimitedDecodeTransactionInfo>(
                UpdateOneofLimitedDecodeTransactionInfo::empty(),
                bytes,
                info_model(info, error),
            );
            assert(info_model(info, error).account_keys =~= keys.to_set());
            if info.signature.len() == 64 {
                let k = wire::key_bytes(1, WireType::LengthDelimited).len();
                let n = wire::varint_bytes(info.signature.len()).len();
                let at = place.start + k + n;
                let f1 = wire::bytes_field_opt(1, info.signature);
                assert(f1 =~= wire::key_bytes(1, WireType::LengthDelimited) + wire::varint_bytes(
                    info.signature.len(),
                ) + info.signature);
                assert(bytes.subrange((k + n) as int, (k + n) as int + 64) =~= info.signature);
                assert(data.subrange(at as int, at as int + 64) =~= account::bytes_at(
                    data,
                    place,
                ).subrange((k + n) as int, (k + n) as int + 64));
            }
            if let Some(e) = error {
                lemma_meta_bytes(info);
                let at = meta_place(info);
                let inner = Span { start: at + e.start, end: at + e.end };
                assert(account::bytes_at(data, message::span_in(place, inner))
                    =~= account::bytes_at(bytes, inner));
                assert(account::bytes_at(bytes, inner) =~= meta.encoded.subrange(
                    e.start as int,
                    e.end as int,
                ));
            }
        }
    }
}

/// Where the metadata of a transaction lies.
proof fn lemma_meta_bytes(m: TransactionInfoView)
    requires
        m.transaction is Some,
        m.meta is Some,
    ensures
        ({
            let bytes = encode::transaction_info_bytes(m);
            let at = meta_place(m);
            let encoded = m.meta->Some_0.encoded;
            &&& at + encoded.len() <= bytes.len()
            &&& bytes.subrange(at as int, (at + encoded.len()) as int) == encoded
        }),
{
    let bytes = encode::transaction_info_bytes(m);
    let at = meta_place(m);
    let encoded = m.meta->Some_0.encoded;
    let f5 = wire::varint_field_opt(5, m.index);
    assert(bytes =~= upto_body(m) + wire::bytes_field(4, encoded) + f5);
    assert(bytes.subrange(at as int, (at + encoded.len()) as int) =~= encoded);
}

/// The keys of a transaction are its static and its loaded keys.
proof fn lemma_keys(t: TransactionBodyView, meta: TransactionMetaView)
    requires
        parser::all_keys(parser::listed_keys(t.account_keys, meta)),
    ensures
        parser::all_keys(geyser::static_keys(t)),
        parser::all_keys(geyser::loaded_keys(meta)),
        parser::listed_keys(t.account_keys, meta).to_set() == geyser::static_keys(t).to_set().union(
            geyser::loaded_keys(meta).to_set(),
        ),
{
    let keys = parser::listed_keys(t.account_keys, meta);
    let a = geyser::static_keys(t);
    let b = geyser::loaded_keys(meta);
    assert(keys =~= a + b);
    assert forall|i: int| 0 <= i < a.len() implies (#[trigger] a[i]).len() == 32 by {
        assert(keys[i] == a[i]);
    }
    assert forall|i: int| 0 <= i < b.len() implies (#[trigger] b[i]).len() == 32 by {
        assert(keys[a.len() + i] == b[i]);
    }
    assert forall|k: Seq<u8>| #[trigger] keys.to_set().contains(k) == a.to_set().union(
        b.to_set(),
    ).contains(k) by {
        if a.contains(k) {
            let i = choose|i: int| 0 <= i < a.len() && a[i] == k;
            assert(keys[i] == k);
        }
        if b.contains(k) {
            let i = choose|i: int| 0 <= i < b.len() && b[i] == k;
            assert(keys[a.len() + i] == k);
        }
        if keys.contains(k) {
            let i = choose|i: int| 0 <= i < keys.len() && keys[i] == k;
            if i < a.len() {
                assert(a[i] == k);
            } else {
                assert(b[i - a.len()] == k);
            }
        }
    }
    assert(keys.to_set() =~= a.to_set().union(b.to_set()));
}

// ---------------------------------------------------------------------------------------------
// Updates that are passed on
// ---------------------------------------------------------------------------------------------

/// The update of the stream, with the names of other filters.
pub open spec fn named(m: StreamView, names: Seq<Seq<char>>) -> StreamView {
    match m {
        StreamView::Geyser { update, created_at, .. } => StreamView::Geyser {
            filters: names,
            update,
            created_at,
        },
        StreamView::Richat { .. } => m,
    }
}

/// All of a message that is no block, encoded for filters, is the update that the message was made of,
/// with the names of these filters: what `data` decodes to is what is encoded, with the same time. Here
/// the message is one of the parser that decodes updates in full.
#[verifier::rlimit(50)]
#[verifier::spinoff_prover]
pub proof fn law_full_passed_on(data: Seq<u8>, m: MessageView, filters: Seq<Seq<char>>)
    requires
        parser::prost_message(data) == Ok::<MessageView, ParseFailure>(m),
        !(m is Block),
    ensures
        ({
            let (tag, payload, created_at) = round_trip::message_parts(m);
            &&& round_trip::message_bytes(m, filters) == encode::envelope_bytes(
                filters,
                tag,
                payload,
                created_at,
            )
            &&& stream::decoded_geyser(data) matches Ok(StreamView::Geyser {
                update: Some(u),
                created_at: Some(ts),
                ..
            }) && ts == created_at && stream::encoded_as(u, tag, payload)
        }),
{
    reveal(parser::update_message);
    if let MessageView::Account(a) = m {
        filter::law_no_slice(update::account_info(a).data);
        assert(update::sliced_info(a, Seq::empty()) == update::account_info(a));
    }
    if let MessageView::Transaction(t) = m {
        let info = t->Prost_transaction;
        assert(geyser::decoded_transaction(info));
    }
    if let MessageView::BlockMeta(t) = m {
        assert(geyser::decoded_block_meta(t.block_meta()));
    }
}

/// All of a message, encoded for filters, is the update that the message was made of, with the names of
/// these filters. Here the message is one of the limited parser.
pub proof fn law_limited_passed_on(data: Seq<u8>, m: MessageView, filters: Seq<Seq<char>>)
    requires
        message::limited_message(data) == Ok::<MessageView, ParseFailure>(m),
    ensures
        round_trip::message_bytes(m, filters) == message::passed_on(data, filters),
{
}

} // verus!
