//! Updates of a stream, decoded in full, and what they add up to.
use vstd::prelude::*;

use crate::agree;
use crate::codec::Timestamp;
use crate::encode;
use crate::error;
use crate::error::{DecodeErrorKind, Failure, WireError};
use crate::geyser;
use crate::geyser::{
    AccountInfoView, AccountView, BlockMetaView, BlockView, EntryView, SlotView,
    SubscribeUpdateAccount, SubscribeUpdateBlock, SubscribeUpdateBlockMeta, SubscribeUpdateEntry,
    SubscribeUpdateSlot, SubscribeUpdateTransactionInfo, SubscribeUpdateTransactionStatus,
    TransactionInfoView, TransactionStatusView,
};
use crate::message;
use crate::message::{MessageView, ParseFailure};
use crate::parser;
use crate::plugin;
use crate::protobuf::ProtobufMessage;
use crate::richat;
use crate::richat::{RichatView, SubscribeUpdateRichat, UpdateOneofRichat};
use crate::round_trip;
use crate::told;
use crate::wire;
use crate::wire::WireType;

verus! {

// ---------------------------------------------------------------------------------------------
// Decoding
// ---------------------------------------------------------------------------------------------

/// A transaction update.
#[derive(Debug)]
pub struct SubscribeUpdateTransaction {
    pub transaction: Option<SubscribeUpdateTransactionInfo>,
    pub slot: u64,
}

/// An update of the stream.
#[derive(Debug)]
pub enum UpdateOneof {
    Account(SubscribeUpdateAccount),
    Slot(SubscribeUpdateSlot),
    Transaction(SubscribeUpdateTransaction),
    TransactionStatus(SubscribeUpdateTransactionStatus),
    Block(SubscribeUpdateBlock),
    Ping,
    Pong,
    BlockMeta(SubscribeUpdateBlockMeta),
    Entry(SubscribeUpdateEntry),
}

/// What an update of the stream holds.
pub ghost enum UpdateView {
    Account(AccountView),
    Slot(SlotView),
    Transaction { transaction: Option<TransactionInfoView>, slot: u64 },
    TransactionStatus(TransactionStatusView),
    Block(BlockView),
    Ping,
    Pong,
    BlockMeta(BlockMetaView),
    Entry(EntryView),
}

impl View for UpdateOneof {
    type V = UpdateView;

    open spec fn view(&self) -> UpdateView {
        match self {
            UpdateOneof::Account(m) => UpdateView::Account(m@),
            UpdateOneof::Slot(m) => UpdateView::Slot(m@),
            UpdateOneof::Transaction(m) => UpdateView::Transaction {
                transaction: match m.transaction {
                    Some(info) => Some(info@),
                    None => None,
                },
                slot: m.slot,
            },
            UpdateOneof::TransactionStatus(m) => UpdateView::TransactionStatus(m@),
            UpdateOneof::Block(m) => UpdateView::Block(m@),
            UpdateOneof::Ping => UpdateView::Ping,
            UpdateOneof::Pong => UpdateView::Pong,
            UpdateOneof::BlockMeta(m) => UpdateView::BlockMeta(m@),
            UpdateOneof::Entry(m) => UpdateView::Entry(m@),
        }
    }
}

/// An update received from the stream: one of all Geyser plugins, or one that is none of these.
#[derive(Debug)]
pub enum StreamUpdate {
    Geyser {
        filters: Vec<String>,
        update_oneof: Option<UpdateOneof>,
        created_at: Option<Timestamp>,
    },
    Richat { update_oneof: Option<UpdateOneofRichat>, created_at: Option<Timestamp> },
}

/// What an update received from the stream holds.
pub ghost enum StreamView {
    Geyser {
        filters: Seq<Seq<char>>,
        update: Option<UpdateView>,
        created_at: Option<Timestamp>,
    },
    Richat { update: Option<RichatView>, created_at: Option<Timestamp> },
}

impl StreamView {
    /// When the update was made, where it says so.
    pub open spec fn created_at(self) -> Option<Timestamp> {
        match self {
            StreamView::Geyser { created_at, .. } => created_at,
            StreamView::Richat { created_at, .. } => created_at,
        }
    }
}

impl View for StreamUpdate {
    type V = StreamView;

    open spec fn view(&self) -> StreamView {
        match self {
            StreamUpdate::Geyser { filters, update_oneof, created_at } => StreamView::Geyser {
                filters: geyser::text_each(filters@),
                update: match update_oneof {
                    Some(m) => Some(m@),
                    None => None,
                },
                created_at: *created_at,
            },
            StreamUpdate::Richat { update_oneof, created_at } => StreamView::Richat {
                update: match update_oneof {
                    Some(m) => Some(m@),
                    None => None,
                },
                created_at: *created_at,
            },
        }
    }
}

impl StreamUpdate {
    /// When the update was made, where it says so.
    pub fn created_at(&self) -> (r: Option<Timestamp>)
        ensures
            r == self@.created_at(),
    {
        match self {
            StreamUpdate::Geyser { created_at, .. } => *created_at,
            StreamUpdate::Richat { created_at, .. } => *created_at,
        }
    }
}

/// The account that the bytes are, where there are any.
pub open spec fn account_part(bytes: Option<Seq<u8>>) -> Option<Option<AccountInfoView>> {
    match bytes {
        Some(bytes) => match geyser::prost_account_info(bytes) {
            Some(info) => Some(Some(info)),
            None => None,
        },
        None => Some(None),
    }
}

/// The transaction that the bytes are, where there are any.
pub open spec fn transaction_part(bytes: Option<Seq<u8>>) -> Option<Option<TransactionInfoView>> {
    match bytes {
        Some(bytes) => match geyser::prost_transaction_info(bytes) {
            Some(info) => Some(Some(info)),
            None => None,
        },
        None => Some(None),
    }
}

/// The update with the tag that the bytes are.
pub open spec fn geyser_update(tag: u32, payload: Seq<u8>) -> Option<UpdateView> {
    if tag == 2 {
        match geyser::prost_account(payload) {
            Some((info, slot, is_startup)) => match account_part(info) {
                Some(account) => Some(
                    UpdateView::Account(AccountView { account, slot, is_startup }),
                ),
                None => None,
            },
            None => None,
        }
    } else if tag == 3 {
        match geyser::prost_slot(payload) {
            Some(m) => Some(UpdateView::Slot(m)),
            None => None,
        }
    } else if tag == 4 {
        match geyser::prost_transaction(payload) {
            Some((info, slot)) => match transaction_part(info) {
                Some(transaction) => Some(UpdateView::Transaction { transaction, slot }),
                None => None,
            },
            None => None,
        }
    } else if tag == 5 {
        match geyser::prost_block(payload) {
            Some(m) => Some(UpdateView::Block(m)),
            None => None,
        }
    } else if tag == 6 {
        Some(UpdateView::Ping)
    } else if tag == 7 {
        match geyser::prost_block_meta(payload) {
            Some(m) => Some(UpdateView::BlockMeta(m)),
            None => None,
        }
    } else if tag == 8 {
        match geyser::prost_entry(payload) {
            Some(m) => Some(UpdateView::Entry(m)),
            None => None,
        }
    } else if tag == 9 {
        Some(UpdateView::Pong)
    } else {
        match geyser::prost_transaction_status(payload) {
            Some(m) => Some(UpdateView::TransactionStatus(m)),
            None => None,
        }
    }
}

/// The update that the bytes are: where they are none of the stream, what else they are.
pub open spec fn decoded_update(data: Seq<u8>) -> Result<StreamView, Failure> {
    match geyser::prost_update(data) {
        None => Err(richat::malformed()),
        Some((filters, None, created_at)) => match richat::richat_envelope(data) {
            Err(e) => Err(e),
            Ok(m) => match m.update {
                None => Ok(StreamView::Geyser { filters, update: None, created_at }),
                Some((tag, payload)) => match richat::richat_update(tag, payload) {
                    Some(update) => Ok(
                        StreamView::Richat { update: Some(update), created_at: m.created_at },
                    ),
                    None => Err(richat::malformed()),
                },
            },
        },
        Some((filters, Some((tag, payload)), created_at)) => match geyser_update(tag, payload) {
            Some(update) => Ok(StreamView::Geyser { filters, update: Some(update), created_at }),
            None => Err(richat::malformed()),
        },
    }
}

/// The update of the stream that the bytes are, whatever else they hold.
pub open spec fn decoded_geyser(data: Seq<u8>) -> Result<StreamView, Failure> {
    match geyser::prost_update(data) {
        None => Err(richat::malformed()),
        Some((filters, None, created_at)) => Ok(
            StreamView::Geyser { filters, update: None, created_at },
        ),
        Some((filters, Some((tag, payload)), created_at)) => match geyser_update(tag, payload) {
            Some(update) => Ok(StreamView::Geyser { filters, update: Some(update), created_at }),
            None => Err(richat::malformed()),
        },
    }
}

/// Whether `r` is what `result` says.
pub open spec fn is_decoded(r: Result<StreamUpdate, WireError>, result: Result<StreamView, Failure>) -> bool {
    match result {
        Ok(m) => r is Ok && r->Ok_0@ == m,
        Err(e) => r is Err && r->Err_0@ == e,
    }
}

/// Whether the payload with the tag is the update, encoded. Of transactions and of the rewards of a block
/// only such are meant that were decoded.
pub open spec fn encoded_as(m: UpdateView, tag: u32, payload: Seq<u8>) -> bool {
    match m {
        UpdateView::Account(m) => tag == 2 && payload == encode::account_bytes(m),
        UpdateView::Slot(m) => tag == 3 && payload == encode::slot_bytes(m),
        UpdateView::Transaction { transaction: Some(info), slot } => {
            &&& tag == 4
            &&& geyser::decoded_transaction(info)
            &&& payload == encode::transaction_bytes(encode::transaction_info_bytes(info), slot)
        },
        UpdateView::Block(m) => {
            tag == 5 && geyser::encoded_block(m) && payload == geyser::block_view_bytes(m)
        },
        UpdateView::BlockMeta(m) => {
            tag == 7 && geyser::decoded_block_meta(m) && payload == encode::block_meta_bytes(m)
        },
        UpdateView::Entry(m) => tag == 8 && payload == encode::entry_bytes(m),
        UpdateView::TransactionStatus(m) => tag == 10 && payload == geyser::status_bytes(m),
        _ => false,
    }
}

/// An encoded update is one.
proof fn lemma_encoded_as(m: UpdateView, tag: u32, payload: Seq<u8>)
    requires
        encoded_as(m, tag, payload),
    ensures
        geyser::encoded_update(tag, payload),
{
    if let UpdateView::Transaction { transaction: Some(info), slot } = m {
        let bytes = encode::transaction_info_bytes(info);
        assert(geyser::encoded_transaction(bytes));
        assert(payload == encode::transaction_bytes(bytes, slot));
    }
}

/// The update with the tag that the bytes are. An encoded update is read back.
fn decode_payload(tag: u32, payload: &[u8]) -> (r: Option<UpdateOneof>)
    requires
        2 <= tag <= 10,
    ensures
        match geyser_update(tag, payload@) {
            Some(m) => r is Some && r->Some_0@ == m,
            None => r is None,
        },
        forall|m: UpdateView| #[trigger]
            encoded_as(m, tag, payload@) ==> r is Some && r->Some_0@ == m,
{
    match tag {
        2 => match geyser::decode_account(payload) {
            Ok((Some(bytes), slot, is_startup)) => match geyser::decode_account_info(
                bytes.as_slice(),
            ) {
                Ok(info) => Some(
                    UpdateOneof::Account(
                        SubscribeUpdateAccount { account: Some(info), slot, is_startup },
                    ),
                ),
                Err(_) => None,
            },
            Ok((None, slot, is_startup)) => Some(
                UpdateOneof::Account(SubscribeUpdateAccount { account: None, slot, is_startup }),
            ),
            Err(_) => None,
        },
        3 => match geyser::decode_slot(payload) {
            Ok(m) => Some(UpdateOneof::Slot(m)),
            Err(_) => None,
        },
        4 => match geyser::decode_transaction(payload) {
            Ok((Some(bytes), slot)) => match geyser::decode_transaction_info(bytes.as_slice()) {
                Ok(info) => Some(
                    UpdateOneof::Transaction(
                        SubscribeUpdateTransaction { transaction: Some(info), slot },
                    ),
                ),
                Err(_) => None,
            },
            Ok((None, slot)) => Some(
                UpdateOneof::Transaction(SubscribeUpdateTransaction { transaction: None, slot }),
            ),
            Err(_) => None,
        },
        5 => match geyser::decode_block(payload) {
            Ok(m) => Some(UpdateOneof::Block(m)),
            Err(_) => None,
        },
        6 => Some(UpdateOneof::Ping),
        7 => match geyser::decode_block_meta(payload) {
            Ok(m) => Some(UpdateOneof::BlockMeta(m)),
            Err(_) => None,
        },
        8 => match geyser::decode_entry(payload) {
            Ok(m) => Some(UpdateOneof::Entry(m)),
            Err(_) => None,
        },
        9 => Some(UpdateOneof::Pong),
        _ => match geyser::decode_transaction_status(payload) {
            Ok(m) => Some(UpdateOneof::TransactionStatus(m)),
            Err(_) => None,
        },
    }
}

/// The error for bytes that are no update.
fn malformed_error() -> (r: WireError)
    ensures
        r@ == richat::malformed(),
{
    error::create_decode_error(DecodeErrorKind::InvalidMessage)
}

/// Whether the names of filters, the update with its tag and the time are what `parts` say.
spec fn are_parts(
    r: (Vec<String>, Option<(u32, Vec<u8>)>, Option<Timestamp>),
    parts: (Seq<Seq<char>>, Option<(u32, Seq<u8>)>, Option<Timestamp>),
) -> bool {
    &&& geyser::text_each(r.0@) == parts.0
    &&& match (r.1, parts.1) {
        (Some((tag, payload)), Some((t, p))) => tag == t && payload@ == p && 2 <= tag <= 10,
        (None, None) => true,
        _ => false,
    }
    &&& r.2 == parts.2
}

/// Takes an update of the stream out of its envelope. An encoded update is read back. An update is the
/// same in another envelope. What is none of the stream is not looked at.
fn open_envelope(data: &[u8]) -> (r: Result<
    (Vec<String>, Option<(u32, Vec<u8>)>, Option<Timestamp>),
    WireError,
>)
    ensures
        match geyser::prost_update(data@) {
            Some(parts) => r is Ok && are_parts(r->Ok_0, parts),
            None => r is Err && r->Err_0@ == richat::malformed(),
        },
        forall|filters: Seq<Seq<char>>, tag: u32, payload: Seq<u8>, ts: Timestamp|
            geyser::encoded_update(tag, payload) && data@ == #[trigger] encode::envelope_bytes(
                filters,
                tag,
                payload,
                ts,
            ) ==> r is Ok && are_parts(r->Ok_0, (filters, Some((tag, payload)), Some(ts))),
        forall|from: Seq<u8>, filters: Seq<Seq<char>>|
            #![trigger geyser::prost_update(from), message::passed_on(from, filters)]
            message::limited_envelope(from) is Ok && geyser::prost_update(from) is Some && data@
                == message::passed_on(from, filters) ==> {
                let (_, update, created_at) = geyser::prost_update(from)->Some_0;
                r is Ok && are_parts(r->Ok_0, (filters, update, created_at))
            },
        forall|tag: u32, payload: Seq<u8>, ts: Timestamp|
            100 <= tag <= 105 && data@ == #[trigger] encode::other_envelope(tag, payload, ts)
                ==> r is Ok && are_parts(r->Ok_0, (Seq::empty(), None, Some(ts))),
{
    proof {
        assert forall|tag: u32, payload: Seq<u8>|
            1 <= tag <= 10 implies (#[trigger] wire::bytes_field(tag, payload)).len() > 0 by {
            wire::lemma_key_round_trip(tag, WireType::LengthDelimited, Seq::empty());
        }
    }
    let (filters, update, created_at) = match geyser::decode_update(data) {
        Ok(parts) => parts,
        Err(_) => return Err(malformed_error()),
    };
    if update.len() == 0 {
        assert(filters@.len() == 0 ==> geyser::text_each(filters@) =~= Seq::empty());
        return Ok((filters, None, created_at));
    }
    let (tag, payload) = parser::split_field(update.as_slice());
    Ok((filters, Some((tag, payload)), created_at))
}

impl StreamUpdate {
    /// Decodes an update of the stream. An encoded update is read back. So is all of a message that is no
    /// block, encoded for filters: it is the update that the message was made of, with the names of these
    /// filters. What is none of the stream is not looked at: of what a validator tells of beyond the
    /// stream, there is the time.
    #[verifier::rlimit(50)]
    #[verifier::spinoff_prover]
    pub fn decode_geyser(data: &[u8]) -> (r: Result<StreamUpdate, WireError>)
        ensures
            is_decoded(r, decoded_geyser(data@)),
            forall|filters: Seq<Seq<char>>, m: UpdateView, tag: u32, payload: Seq<u8>, ts: Timestamp|
                #[trigger] encoded_as(m, tag, payload) && data@ == #[trigger] encode::envelope_bytes(
                    filters,
                    tag,
                    payload,
                    ts,
                ) ==> is_decoded(
                    r,
                    Ok(StreamView::Geyser { filters, update: Some(m), created_at: Some(ts) }),
                ),
            forall|from: Seq<u8>, m: MessageView, filters: Seq<Seq<char>>|
                #![trigger parser::prost_message(from), round_trip::message_bytes(m, filters)]
                parser::prost_message(from) == Ok::<MessageView, ParseFailure>(m) && !(m is Block)
                    && data@ == round_trip::message_bytes(m, filters) ==> decoded_geyser(from) is Ok
                    && is_decoded(r, Ok(agree::named(decoded_geyser(from)->Ok_0, filters))),
            forall|from: Seq<u8>, m: MessageView, filters: Seq<Seq<char>>|
                #![trigger message::limited_message(from), round_trip::message_bytes(m, filters)]
                message::limited_message(from) == Ok::<MessageView, ParseFailure>(m)
                    && decoded_geyser(from) is Ok && data@ == round_trip::message_bytes(
                    m,
                    filters,
                ) ==> is_decoded(
                    r,
                    Ok(agree::named(decoded_geyser(from)->Ok_0, filters)),
                ),
            forall|m: &ProtobufMessage, ts: Timestamp|
                m.tag() >= 100 && data@ == #[trigger] m.encoded(ts) ==> is_decoded(
                    r,
                    Ok(
                        StreamView::Geyser {
                            filters: Seq::empty(),
                            update: None,
                            created_at: Some(ts),
                        },
                    ),
                ),
    {
        proof {
            assert forall|m: UpdateView, tag: u32, payload: Seq<u8>| #[trigger]
                encoded_as(m, tag, payload) implies geyser::encoded_update(tag, payload) by {
                lemma_encoded_as(m, tag, payload);
            }
            assert forall|from: Seq<u8>, m: MessageView, filters: Seq<Seq<char>>|
                #![trigger parser::prost_message(from), round_trip::message_bytes(m, filters)]
                parser::prost_message(from) == Ok::<MessageView, ParseFailure>(m)
                    && !(m is Block) implies {
                let (tag, payload, created_at) = round_trip::message_parts(m);
                &&& round_trip::message_bytes(m, filters) == encode::envelope_bytes(
                    filters,
                    tag,
                    payload,
                    created_at,
                )
                &&& decoded_geyser(from) matches Ok(StreamView::Geyser {
                    update: Some(u),
                    created_at: Some(ts),
                    ..
                }) && ts == created_at && encoded_as(u, tag, payload)
            } by {
                agree::law_full_passed_on(from, m, filters);
            }
            assert forall|from: Seq<u8>, m: MessageView, filters: Seq<Seq<char>>|
                #![trigger message::limited_message(from), round_trip::message_bytes(m, filters)]
                message::limited_message(from) == Ok::<MessageView, ParseFailure>(m)
                    && decoded_geyser(from) is Ok implies {
                &&& message::limited_envelope(from) is Ok
                &&& round_trip::message_bytes(m, filters) == message::passed_on(from, filters)
                &&& geyser::prost_update(from) is Some
            } by {
                agree::law_limited_passed_on(from, m, filters);
            }
            assert forall|m: &ProtobufMessage, ts: Timestamp|
                m.tag() >= 100 implies #[trigger] m.encoded(ts) == encode::other_envelope(
                m.tag(),
                m.payload(),
                ts,
            ) by {
                round_trip::law_update_bytes(m.tag(), m.payload(), ts);
            }
        }
        let (filters, update, created_at) = match open_envelope(data) {
            Ok(parts) => parts,
            Err(e) => return Err(e),
        };
        match update {
            Some((tag, payload)) => match decode_payload(tag, payload.as_slice()) {
                Some(update) => Ok(
                    StreamUpdate::Geyser { filters, update_oneof: Some(update), created_at },
                ),
                None => Err(malformed_error()),
            },
            None => Ok(StreamUpdate::Geyser { filters, update_oneof: None, created_at }),
        }
    }

    /// Decodes an update. An encoded update is read back, and so is what a validator tells of beyond
    /// the stream. Of transactions before replay only such are meant that were decoded before.
    #[verifier::rlimit(50)]
    #[verifier::spinoff_prover]
    pub fn decode(data: &[u8]) -> (r: Result<StreamUpdate, WireError>)
        ensures
            is_decoded(r, decoded_update(data@)),
            forall|filters: Seq<Seq<char>>, m: UpdateView, tag: u32, payload: Seq<u8>, ts: Timestamp|
                #[trigger] encoded_as(m, tag, payload) && data@ == #[trigger] encode::envelope_bytes(
                    filters,
                    tag,
                    payload,
                    ts,
                ) ==> is_decoded(
                    r,
                    Ok(StreamView::Geyser { filters, update: Some(m), created_at: Some(ts) }),
                ),
            forall|m: &ProtobufMessage, ts: Timestamp|
                m.tag() >= 100 && told::decodable(m) && data@ == #[trigger] m.encoded(ts)
                    ==> is_decoded(
                    r,
                    Ok(StreamView::Richat { update: told::told(m), created_at: Some(ts) }),
                ),
    {
        let total: usize = data.len();
        proof {
            assert forall|m: UpdateView, tag: u32, payload: Seq<u8>| #[trigger]
                encoded_as(m, tag, payload) implies geyser::encoded_update(tag, payload) by {
                lemma_encoded_as(m, tag, payload);
            }
        }
        let (filters, update, created_at) = match geyser::decode_update(data) {
            Ok(parts) => parts,
            Err(_) => {
                proof {
                    assert forall|m: &ProtobufMessage, ts: Timestamp|
                        m.tag() >= 100 && data@ == #[trigger] m.encoded(ts) implies false by {
                        round_trip::law_update_bytes(m.tag(), m.payload(), ts);
                    }
                }
                return Err(malformed_error());
            },
        };
        proof {
            assert forall|tag: u32, payload: Seq<u8>|
                1 <= tag <= 10 implies (#[trigger] wire::bytes_field(tag, payload)).len() > 0 by {
                wire::lemma_key_round_trip(tag, WireType::LengthDelimited, Seq::empty());
            }
            assert forall|m: &ProtobufMessage, ts: Timestamp|
                m.tag() >= 100 && data@ == #[trigger] m.encoded(ts) implies update@.len() == 0 by {
                round_trip::law_update_bytes(m.tag(), m.payload(), ts);
            }
        }
        if update.len() == 0 {
            let envelope = SubscribeUpdateRichat::decode(data);
            proof {
                assert forall|m: &ProtobufMessage, ts: Timestamp|
                    m.tag() >= 100 && told::decodable(m) && data@ == #[trigger] m.encoded(
                        ts,
                    ) implies decoded_update(data@) == Ok::<StreamView, Failure>(
                    StreamView::Richat { update: told::told(m), created_at: Some(ts) },
                ) by {
                    round_trip::law_update_bytes(m.tag(), m.payload(), ts);
                    assert(m.payload().len() <= total);
                    round_trip::lemma_other_fields(m.tag(), m.payload(), ts);
                    if let ProtobufMessage::DeshredTransaction { slot, transaction } = m {
                        assert(m.payload() == plugin::deshred_bytes(**transaction, *slot));
                        let one = richat::one_part(
                            100,
                            plugin::deshred_bytes(**transaction, *slot),
                            Some(ts),
                        );
                    }
                    told::law_told_round_trip(m, ts);
                }
            }
            let richat = match envelope {
                Ok(richat) => richat,
                Err(e) => return Err(e),
            };
            return match richat.update_oneof() {
                Ok(Some(update)) => Ok(
                    StreamUpdate::Richat {
                        update_oneof: Some(update),
                        created_at: richat.created_at,
                    },
                ),
                Ok(None) => Ok(StreamUpdate::Geyser { filters, update_oneof: None, created_at }),
                Err(e) => Err(e),
            };
        }
        let (tag, payload) = parser::split_field(update.as_slice());
        match decode_payload(tag, payload.as_slice()) {
            Some(update) => Ok(
                StreamUpdate::Geyser { filters, update_oneof: Some(update), created_at },
            ),
            None => Err(malformed_error()),
        }
    }
}

/// The tag alone says what kind of update the bytes are, if they are one. A ping and a pong are whatever
/// they hold.
pub proof fn law_kinds(tag: u32, payload: Seq<u8>)
    requires
        2 <= tag <= 10,
    ensures
        geyser_update(tag, payload) matches Some(u) ==> {
            &&& u is Account <==> tag == 2
            &&& u is Slot <==> tag == 3
            &&& u is Transaction <==> tag == 4
            &&& u is Block <==> tag == 5
            &&& u is Ping <==> tag == 6
            &&& u is BlockMeta <==> tag == 7
            &&& u is Entry <==> tag == 8
            &&& u is Pong <==> tag == 9
            &&& u is TransactionStatus <==> tag == 10
        },
        tag == 6 || tag == 9 ==> geyser_update(tag, payload) is Some,
{
}

/// An update keeps the names of its filters and its time. What holds no update of the stream is one beyond
/// it, if it holds one of those, with its own time.
pub proof fn law_decoded(data: Seq<u8>)
    ensures
        match geyser::prost_update(data) {
            None => decoded_update(data) is Err && decoded_geyser(data) is Err,
            Some((names, Some((tag, payload)), ts)) => {
                &&& decoded_update(data) == decoded_geyser(data)
                &&& decoded_update(data) matches Ok(m) ==> {
                    &&& m matches StreamView::Geyser { filters, update, created_at }
                    &&& filters == names
                    &&& created_at == ts
                    &&& update == geyser_update(tag, payload)
                    &&& update is Some
                }
                &&& decoded_update(data) is Ok <==> geyser_update(tag, payload) is Some
            },
            Some((names, None, ts)) => {
                &&& decoded_geyser(data) == Ok::<StreamView, Failure>(
                    StreamView::Geyser { filters: names, update: None, created_at: ts },
                )
                &&& decoded_update(data) matches Ok(StreamView::Geyser {
                    filters,
                    update,
                    created_at,
                }) ==> filters == names && update is None && created_at == ts
                &&& decoded_update(data) matches Ok(StreamView::Richat { update, created_at }) ==> {
                    &&& richat::richat_envelope(data) matches Ok(m) && {
                        &&& m.created_at == created_at
                        &&& m.update matches Some((tag, payload)) && update
                            == richat::richat_update(tag, payload) && update is Some
                    }
                }
            },
        },
{
}

} // verus!
