//! Messages: updates of a stream, as one of two parsers made them.
use std::ops::Range;
use std::sync::Arc;

use vstd::prelude::*;

use crate::account;
use crate::account::{MessageAccount, MessageAccountView};
use crate::codec::Timestamp;
use crate::decode;
use crate::decode::{
    LimitedDecode, Span, SubscribeUpdateLimitedDecode, UpdateOneofLimitedDecode,
    UpdateOneofLimitedDecodeAccount, UpdateOneofLimitedDecodeEntry, UpdateOneofLimitedDecodeSlot,
    UpdateOneofLimitedDecodeTransaction, UpdateOneofLimitedDecodeTransactionInfo,
};
use crate::encode;
use crate::error;
use crate::error::{DecodeErrorKind, Failure, WireError};
use crate::fields;
use crate::geyser;
use crate::geyser::{
    BlockMetaView, EntryView, SlotStatus, SubscribeUpdateBlockMeta, SubscribeUpdateEntry,
    SubscribeUpdateTransactionInfo, TransactionError, TransactionInfoView,
};
use crate::parser;
use crate::places;
use crate::pubkey;
use crate::pubkey::{PubkeySet, Signature, Slot};
use crate::relocation;
use crate::write_version;

verus! {

/// Why an update is no message.
#[derive(Debug)]
pub enum MessageParseError {
    /// The bytes could not be decoded.
    Prost(WireError),
    /// A field is missing.
    FieldNotDefined(&'static str),
    /// A number stands for no status.
    InvalidEnumValue(i32),
    /// A public key has not 32 bytes.
    InvalidPubkey,
    /// Updates of this kind are no messages.
    InvalidUpdateMessage(&'static str),
    /// The parts of a block come from different parsers.
    IncompatibleEncoding,
}

/// What a [`MessageParseError`] says.
pub ghost enum ParseFailure {
    Prost(Failure),
    FieldNotDefined(&'static str),
    InvalidEnumValue(i32),
    InvalidPubkey,
    InvalidUpdateMessage(&'static str),
    IncompatibleEncoding,
}

impl View for MessageParseError {
    type V = ParseFailure;

    open spec fn view(&self) -> ParseFailure {
        match *self {
            MessageParseError::Prost(e) => ParseFailure::Prost(e@),
            MessageParseError::FieldNotDefined(f) => ParseFailure::FieldNotDefined(f),
            MessageParseError::InvalidEnumValue(v) => ParseFailure::InvalidEnumValue(v),
            MessageParseError::InvalidPubkey => ParseFailure::InvalidPubkey,
            MessageParseError::InvalidUpdateMessage(u) => ParseFailure::InvalidUpdateMessage(u),
            MessageParseError::IncompatibleEncoding => ParseFailure::IncompatibleEncoding,
        }
    }
}

/// Which parser made a message.
#[derive(Debug, Clone, Copy, PartialEq, Eq, Structural)]
pub enum MessageParserEncoding {
    /// Use optimized parser to extract only required fields
    Limited,
    /// Parse full message with `prost`
    Prost,
}

/// When an update was made, and which parser made the message that says so.
#[derive(Debug, Clone, Copy, PartialEq, Eq, Structural)]
pub enum MessageBlockCreatedAt {
    Limited(Timestamp),
    Prost(Timestamp),
}

impl MessageBlockCreatedAt {
    /// Which parser made the message.
    pub open spec fn parser(self) -> MessageParserEncoding {
        match self {
            MessageBlockCreatedAt::Limited(_) => MessageParserEncoding::Limited,
            MessageBlockCreatedAt::Prost(_) => MessageParserEncoding::Prost,
        }
    }

    /// The time.
    pub open spec fn timestamp(self) -> Timestamp {
        match self {
            MessageBlockCreatedAt::Limited(ts) => ts,
            MessageBlockCreatedAt::Prost(ts) => ts,
        }
    }

    /// Which parser made the message.
    pub fn encoding(&self) -> (r: MessageParserEncoding)
        ensures
            r == self.parser(),
    {
        match self {
            MessageBlockCreatedAt::Limited(_) => MessageParserEncoding::Limited,
            MessageBlockCreatedAt::Prost(_) => MessageParserEncoding::Prost,
        }
    }

    /// The time in milliseconds.
    pub fn as_millis(&self) -> (r: u64)
        requires
            millis_of(self.timestamp()) <= u64::MAX,
        ensures
            r == millis_of(self.timestamp()),
    {
        let ts: Timestamp = Timestamp::from(*self);
        let nanos: i64 = ts.nanos as i64;
        let millis: i64 = if nanos >= 0 {
            nanos / 1_000_000
        } else {
            -((-nanos) / 1_000_000)
        };
        ts.seconds as u64 * 1_000 + millis as u64
    }
}

/// The milliseconds of `nanos`, without what is left of them.
pub open spec fn nanos_millis(nanos: i32) -> i64 {
    if nanos >= 0 {
        (nanos as int / 1_000_000) as i64
    } else {
        -((-nanos) as int / 1_000_000) as i64
    }
}

/// The time in milliseconds.
pub open spec fn millis_of(ts: Timestamp) -> int {
    (ts.seconds as u64) * 1_000 + (nanos_millis(ts.nanos) as u64)
}

impl From<MessageBlockCreatedAt> for Timestamp {
    fn from(value: MessageBlockCreatedAt) -> (r: Self) {
        match value {
            MessageBlockCreatedAt::Limited(timestamp) => timestamp,
            MessageBlockCreatedAt::Prost(timestamp) => timestamp,
        }
    }
}

impl vstd::std_specs::convert::FromSpecImpl<MessageBlockCreatedAt> for Timestamp {
    open spec fn obeys_from_spec() -> bool {
        true
    }

    open spec fn from_spec(value: MessageBlockCreatedAt) -> Self {
        value.timestamp()
    }
}

/// The time `ts` in a message that the parser made.
pub open spec fn created_at_with(
    encoding: MessageParserEncoding,
    ts: Timestamp,
) -> MessageBlockCreatedAt {
    match encoding {
        MessageParserEncoding::Limited => MessageBlockCreatedAt::Limited(ts),
        MessageParserEncoding::Prost => MessageBlockCreatedAt::Prost(ts),
    }
}

/// A slot message.
#[derive(Debug)]
pub enum MessageSlot {
    Limited {
        slot: Slot,
        parent: Option<Slot>,
        status: SlotStatus,
        dead_error: Option<Range<usize>>,
        created_at: Timestamp,
        buffer: Vec<u8>,
        range: Range<usize>,
    },
    Prost {
        slot: Slot,
        parent: Option<Slot>,
        status: SlotStatus,
        dead_error: Option<String>,
        created_at: Timestamp,
        size: usize,
    },
}

/// What a slot message holds.
pub ghost enum MessageSlotView {
    Limited {
        slot: u64,
        parent: Option<u64>,
        status: SlotStatus,
        dead_error: Option<Span>,
        created_at: Timestamp,
        buffer: Seq<u8>,
        range: Span,
    },
    Prost {
        slot: u64,
        parent: Option<u64>,
        status: SlotStatus,
        dead_error: Option<Seq<char>>,
        created_at: Timestamp,
        size: nat,
    },
}

impl View for MessageSlot {
    type V = MessageSlotView;

    open spec fn view(&self) -> MessageSlotView {
        match *self {
            MessageSlot::Limited { slot, parent, status, dead_error, created_at, buffer, range } => {
                MessageSlotView::Limited {
                    slot,
                    parent,
                    status,
                    dead_error: decode::span_opt(dead_error),
                    created_at,
                    buffer: buffer@,
                    range: decode::span(range),
                }
            },
            MessageSlot::Prost { slot, parent, status, dead_error, created_at, size } => {
                MessageSlotView::Prost {
                    slot,
                    parent,
                    status,
                    dead_error: geyser::text_opt(dead_error),
                    created_at,
                    size: size as nat,
                }
            },
        }
    }
}

/// A transaction message.
#[derive(Debug)]
pub enum MessageTransaction {
    Limited {
        signature_offset: Option<usize>,
        error: Option<TransactionError>,
        account_keys: PubkeySet,
        is_vote: bool,
        index: u64,
        transaction_range: Range<usize>,
        slot: Slot,
        created_at: Timestamp,
        buffer: Vec<u8>,
        range: Range<usize>,
    },
    Prost {
        error: Option<TransactionError>,
        account_keys: PubkeySet,
        transaction: SubscribeUpdateTransactionInfo,
        slot: Slot,
        created_at: Timestamp,
        /// What the transaction costs to keep, the set of keys not counted.
        size: usize,
    },
}

/// What a transaction message holds.
pub ghost enum MessageTransactionView {
    Limited {
        signature: Option<nat>,
        error: Option<Seq<u8>>,
        account_keys: Set<Seq<u8>>,
        is_vote: bool,
        index: u64,
        transaction_range: Span,
        slot: u64,
        created_at: Timestamp,
        buffer: Seq<u8>,
        range: Span,
    },
    Prost {
        error: Option<Seq<u8>>,
        account_keys: Set<Seq<u8>>,
        transaction: TransactionInfoView,
        slot: u64,
        created_at: Timestamp,
        size: nat,
    },
}

impl View for MessageTransaction {
    type V = MessageTransactionView;

    open spec fn view(&self) -> MessageTransactionView {
        match *self {
            MessageTransaction::Limited {
                signature_offset,
                error,
                account_keys,
                is_vote,
                index,
                transaction_range,
                slot,
                created_at,
                buffer,
                range,
            } => MessageTransactionView::Limited {
                signature: decode::place_opt(signature_offset),
                error: geyser::error_opt(error),
                account_keys: account_keys@,
                is_vote,
                index,
                transaction_range: decode::span(transaction_range),
                slot,
                created_at,
                buffer: buffer@,
                range: decode::span(range),
            },
            MessageTransaction::Prost {
                error,
                account_keys,
                transaction,
                slot,
                created_at,
                size,
            } => MessageTransactionView::Prost {
                error: geyser::error_opt(error),
                account_keys: account_keys@,
                transaction: transaction@,
                slot,
                created_at,
                size: size as nat,
            },
        }
    }
}

/// An entry message.
#[derive(Debug)]
pub enum MessageEntry {
    Limited {
        slot: Slot,
        index: u64,
        executed_transaction_count: u64,
        created_at: Timestamp,
        buffer: Vec<u8>,
        range: Range<usize>,
    },
    Prost { entry: SubscribeUpdateEntry, created_at: Timestamp, size: usize },
}

/// What an entry message holds.
pub ghost enum MessageEntryView {
    Limited {
        slot: u64,
        index: u64,
        executed_transaction_count: u64,
        created_at: Timestamp,
        buffer: Seq<u8>,
        range: Span,
    },
    Prost { entry: EntryView, created_at: Timestamp, size: nat },
}

impl View for MessageEntry {
    type V = MessageEntryView;

    open spec fn view(&self) -> MessageEntryView {
        match *self {
            MessageEntry::Limited {
                slot,
                index,
                executed_transaction_count,
                created_at,
                buffer,
                range,
            } => MessageEntryView::Limited {
                slot,
                index,
                executed_transaction_count,
                created_at,
                buffer: buffer@,
                range: decode::span(range),
            },
            MessageEntry::Prost { entry, created_at, size } => MessageEntryView::Prost {
                entry: entry@,
                created_at,
                size: size as nat,
            },
        }
    }
}

/// A block metadata message.
#[derive(Debug)]
pub enum MessageBlockMeta {
    Limited {
        block_meta: SubscribeUpdateBlockMeta,
        block_height: Slot,
        created_at: Timestamp,
        buffer: Vec<u8>,
        range: Range<usize>,
    },
    Prost {
        block_meta: SubscribeUpdateBlockMeta,
        block_height: Slot,
        created_at: Timestamp,
        size: usize,
    },
}

/// What a block metadata message holds.
pub ghost enum MessageBlockMetaView {
    Limited {
        block_meta: BlockMetaView,
        block_height: u64,
        created_at: Timestamp,
        buffer: Seq<u8>,
        range: Span,
    },
    Prost { block_meta: BlockMetaView, block_height: u64, created_at: Timestamp, size: nat },
}

impl View for MessageBlockMeta {
    type V = MessageBlockMetaView;

    open spec fn view(&self) -> MessageBlockMetaView {
        match *self {
            MessageBlockMeta::Limited { block_meta, block_height, created_at, buffer, range } => {
                MessageBlockMetaView::Limited {
                    block_meta: block_meta@,
                    block_height,
                    created_at,
                    buffer: buffer@,
                    range: decode::span(range),
                }
            },
            MessageBlockMeta::Prost { block_meta, block_height, created_at, size } => {
                MessageBlockMetaView::Prost {
                    block_meta: block_meta@,
                    block_height,
                    created_at,
                    size: size as nat,
                }
            },
        }
    }
}

/// A block message: the messages of a slot, put together.
#[derive(Debug)]
pub struct MessageBlock {
    pub accounts: Vec<Arc<MessageAccount>>,
    pub transactions: Vec<Arc<MessageTransaction>>,
    pub entries: Vec<Arc<MessageEntry>>,
    pub block_meta: Arc<MessageBlockMeta>,
    pub created_at: MessageBlockCreatedAt,
}

/// What a block message holds.
pub ghost struct MessageBlockView {
    pub accounts: Seq<MessageAccountView>,
    pub transactions: Seq<MessageTransactionView>,
    pub entries: Seq<MessageEntryView>,
    pub block_meta: MessageBlockMetaView,
    pub created_at: MessageBlockCreatedAt,
}

impl View for MessageBlock {
    type V = MessageBlockView;

    open spec fn view(&self) -> MessageBlockView {
        MessageBlockView {
            accounts: self.accounts@.map_values(|m: Arc<MessageAccount>| (*m)@),
            transactions: self.transactions@.map_values(|m: Arc<MessageTransaction>| (*m)@),
            entries: self.entries@.map_values(|m: Arc<MessageEntry>| (*m)@),
            block_meta: (*self.block_meta)@,
            created_at: self.created_at,
        }
    }
}

/// A message.
#[derive(Debug)]
pub enum Message {
    Slot(MessageSlot),
    Account(MessageAccount),
    Transaction(MessageTransaction),
    Entry(MessageEntry),
    BlockMeta(MessageBlockMeta),
    Block(MessageBlock),
}

/// A message that is kept elsewhere.
#[derive(Debug, Clone, Copy)]
pub enum MessageRef<'a> {
    Slot(&'a MessageSlot),
    Account(&'a MessageAccount),
    Transaction(&'a MessageTransaction),
    Entry(&'a MessageEntry),
    BlockMeta(&'a MessageBlockMeta),
    Block(&'a MessageBlock),
}

/// The message, kept elsewhere.
pub open spec fn ref_of<'a>(message: &'a Message) -> MessageRef<'a> {
    match message {
        Message::Slot(m) => MessageRef::Slot(m),
        Message::Account(m) => MessageRef::Account(m),
        Message::Transaction(m) => MessageRef::Transaction(m),
        Message::Entry(m) => MessageRef::Entry(m),
        Message::BlockMeta(m) => MessageRef::BlockMeta(m),
        Message::Block(m) => MessageRef::Block(m),
    }
}

impl Message {
    /// The message, kept elsewhere.
    pub fn as_message_ref(&self) -> (r: MessageRef<'_>)
        ensures
            r == ref_of(self),
            ref_view(r) == self@,
    {
        match self {
            Message::Slot(m) => MessageRef::Slot(m),
            Message::Account(m) => MessageRef::Account(m),
            Message::Transaction(m) => MessageRef::Transaction(m),
            Message::Entry(m) => MessageRef::Entry(m),
            Message::BlockMeta(m) => MessageRef::BlockMeta(m),
            Message::Block(m) => MessageRef::Block(m),
        }
    }
}

/// What a message holds.
pub ghost enum MessageView {
    Slot(MessageSlotView),
    Account(MessageAccountView),
    Transaction(MessageTransactionView),
    Entry(MessageEntryView),
    BlockMeta(MessageBlockMetaView),
    Block(MessageBlockView),
}

impl View for Message {
    type V = MessageView;

    open spec fn view(&self) -> MessageView {
        match *self {
            Message::Slot(m) => MessageView::Slot(m@),
            Message::Account(m) => MessageView::Account(m@),
            Message::Transaction(m) => MessageView::Transaction(m@),
            Message::Entry(m) => MessageView::Entry(m@),
            Message::BlockMeta(m) => MessageView::BlockMeta(m@),
            Message::Block(m) => MessageView::Block(m@),
        }
    }
}

/// What a message that is kept elsewhere holds.
pub open spec fn ref_view(message: MessageRef) -> MessageView {
    match message {
        MessageRef::Slot(m) => MessageView::Slot(m@),
        MessageRef::Account(m) => MessageView::Account(m@),
        MessageRef::Transaction(m) => MessageView::Transaction(m@),
        MessageRef::Entry(m) => MessageView::Entry(m@),
        MessageRef::BlockMeta(m) => MessageView::BlockMeta(m@),
        MessageRef::Block(m) => MessageView::Block(m@),
    }
}

// ---------------------------------------------------------------------------------------------
// The limited parser
// ---------------------------------------------------------------------------------------------

/// The time, the tag and the place of the update in the envelope `data`.
pub open spec fn limited_envelope(data: Seq<u8>) -> Result<(Timestamp, u32, Span), ParseFailure> {
    match fields::all_fields::<SubscribeUpdateLimitedDecode>(
        SubscribeUpdateLimitedDecode::empty(),
        data,
    ) {
        Err(e) => Err(ParseFailure::Prost(e)),
        Ok(m) => match (m.created_at, m.update) {
            (None, _) => Err(ParseFailure::FieldNotDefined("created_at")),
            (Some(_), None) => if m.richat_update {
                Err(ParseFailure::InvalidUpdateMessage("Richat"))
            } else {
                Err(ParseFailure::FieldNotDefined("update_oneof"))
            },
            (Some(ts), Some((tag, sp))) => Ok((ts, tag, sp)),
        },
    }
}

/// The update that `data` holds, with its bytes as they are, in another envelope for the filters.
pub open spec fn passed_on(data: Seq<u8>, filters: Seq<Seq<char>>) -> Seq<u8> {
    let (created_at, tag, sp) = limited_envelope(data)->Ok_0;
    encode::envelope_bytes(filters, tag, account::bytes_at(data, sp), created_at)
}

/// The slot message of the update at `range`.
pub open spec fn limited_slot(data: Seq<u8>, range: Span, created_at: Timestamp) -> Result<
    MessageSlotView,
    ParseFailure,
> {
    match fields::all_fields::<UpdateOneofLimitedDecodeSlot>(
        UpdateOneofLimitedDecodeSlot::empty(),
        account::bytes_at(data, range),
    ) {
        Err(e) => Err(ParseFailure::Prost(e)),
        Ok(m) => match geyser::slot_status_of(m.status) {
            None => Err(ParseFailure::InvalidEnumValue(m.status)),
            Some(status) => Ok(
                MessageSlotView::Limited {
                    slot: m.slot,
                    parent: m.parent,
                    status,
                    dead_error: match m.dead_error {
                        Some(sp) => Some(span_in(range, sp)),
                        None => None,
                    },
                    created_at,
                    buffer: data,
                    range,
                },
            ),
        },
    }
}

/// The account message of the update at `range`.
pub open spec fn limited_account(data: Seq<u8>, range: Span, created_at: Timestamp) -> Result<
    MessageAccountView,
    ParseFailure,
> {
    match fields::all_fields::<UpdateOneofLimitedDecodeAccount>(
        UpdateOneofLimitedDecodeAccount::empty(),
        account::bytes_at(data, range),
    ) {
        Err(e) => Err(ParseFailure::Prost(e)),
        Ok(m) => if m.account == usize::MAX {
            Err(ParseFailure::FieldNotDefined("account"))
        } else {
            Ok(
                MessageAccountView::Limited {
                    fields: relocation::relocate_account(|x: nat| x + range.start, m),
                    created_at,
                    buffer: data,
                    range,
                },
            )
        },
    }
}

/// A run of bytes of the run at `range`.
pub open spec fn span_in(range: Span, sp: Span) -> Span {
    Span { start: range.start + sp.start, end: range.start + sp.end }
}

/// The error of a transaction, decoded from the bytes at `sp`, if there is one.
pub open spec fn limited_error(data: Seq<u8>, sp: Option<Span>) -> Result<
    Option<Seq<u8>>,
    ParseFailure,
> {
    match sp {
        None => Ok(None),
        Some(sp) => match fields::all_fields::<geyser::TransactionErrorFields>(
            Seq::empty(),
            account::bytes_at(data, sp),
        ) {
            Ok(err) => Ok(Some(err)),
            Err(_) => Err(ParseFailure::Prost(error::failure(DecodeErrorKind::InvalidMessage))),
        },
    }
}

/// The transaction message of the update at `range`.
pub open spec fn limited_transaction(data: Seq<u8>, range: Span, created_at: Timestamp) -> Result<
    MessageTransactionView,
    ParseFailure,
> {
    match fields::all_fields::<UpdateOneofLimitedDecodeTransaction>(
        UpdateOneofLimitedDecodeTransaction::empty(),
        account::bytes_at(data, range),
    ) {
        Err(e) => Err(ParseFailure::Prost(e)),
        Ok(m) => match m.transaction {
            None => Err(ParseFailure::FieldNotDefined("transaction")),
            Some(sp) => {
                let transaction_range = span_in(range, sp);
                match fields::all_fields::<UpdateOneofLimitedDecodeTransactionInfo>(
                    UpdateOneofLimitedDecodeTransactionInfo::empty(),
                    account::bytes_at(data, transaction_range),
                ) {
                    Err(e) => Err(ParseFailure::Prost(e)),
                    Ok(info) => {
                        let err = match info.err {
                            Some(sp) => Some(span_in(transaction_range, sp)),
                            None => None,
                        };
                        match limited_error(data, err) {
                            Err(e) => Err(e),
                            Ok(error) => Ok(
                                MessageTransactionView::Limited {
                                    signature: match info.signature {
                                        Some(x) => Some(transaction_range.start + x),
                                        None => None,
                                    },
                                    error,
                                    account_keys: info.account_keys,
                                    is_vote: info.is_vote,
                                    index: info.index,
                                    transaction_range,
                                    slot: m.slot,
                                    created_at,
                                    buffer: data,
                                    range,
                                },
                            ),
                        }
                    },
                }
            },
        },
    }
}

/// The entry message of the update at `range`.
pub open spec fn limited_entry(data: Seq<u8>, range: Span, created_at: Timestamp) -> Result<
    MessageEntryView,
    ParseFailure,
> {
    match fields::all_fields::<UpdateOneofLimitedDecodeEntry>(
        UpdateOneofLimitedDecodeEntry::empty(),
        account::bytes_at(data, range),
    ) {
        Err(e) => Err(ParseFailure::Prost(e)),
        Ok(m) => Ok(
            MessageEntryView::Limited {
                slot: m.slot,
                index: m.index,
                executed_transaction_count: m.executed_transaction_count,
                created_at,
                buffer: data,
                range,
            },
        ),
    }
}

/// The block metadata message of the update at `range`.
pub open spec fn limited_block_meta(data: Seq<u8>, range: Span, created_at: Timestamp) -> Result<
    MessageBlockMetaView,
    ParseFailure,
> {
    match geyser::prost_block_meta(account::bytes_at(data, range)) {
        None => Err(ParseFailure::Prost(error::failure(DecodeErrorKind::InvalidMessage))),
        Some(block_meta) => match block_meta.block_height {
            None => Err(ParseFailure::FieldNotDefined("block_height")),
            Some(block_height) => Ok(
                MessageBlockMetaView::Limited {
                    block_meta,
                    block_height,
                    created_at,
                    buffer: data,
                    range,
                },
            ),
        },
    }
}

/// The message that the limited parser makes of `data`.
pub open spec fn limited_message(data: Seq<u8>) -> Result<MessageView, ParseFailure> {
    match limited_envelope(data) {
        Err(e) => Err(e),
        Ok((created_at, tag, range)) => if tag == 2 {
            match limited_account(data, range, created_at) {
                Ok(m) => Ok(MessageView::Account(m)),
                Err(e) => Err(e),
            }
        } else if tag == 3 {
            match limited_slot(data, range, created_at) {
                Ok(m) => Ok(MessageView::Slot(m)),
                Err(e) => Err(e),
            }
        } else if tag == 4 {
            match limited_transaction(data, range, created_at) {
                Ok(m) => Ok(MessageView::Transaction(m)),
                Err(e) => Err(e),
            }
        } else if tag == 5 {
            Err(ParseFailure::InvalidUpdateMessage("Block"))
        } else if tag == 6 {
            Err(ParseFailure::InvalidUpdateMessage("Ping"))
        } else if tag == 7 {
            match limited_block_meta(data, range, created_at) {
                Ok(m) => Ok(MessageView::BlockMeta(m)),
                Err(e) => Err(e),
            }
        } else if tag == 8 {
            match limited_entry(data, range, created_at) {
                Ok(m) => Ok(MessageView::Entry(m)),
                Err(e) => Err(e),
            }
        } else if tag == 9 {
            Err(ParseFailure::InvalidUpdateMessage("Pong"))
        } else {
            Err(ParseFailure::InvalidUpdateMessage("TransactionStatus"))
        },
    }
}

/// The parser that extracts only what is required.
#[derive(Debug)]
pub struct MessageParserLimited;

impl MessageParserLimited {
    /// Makes a message of an update.
    pub fn parse(data: Vec<u8>) -> (r: Result<Message, MessageParseError>)
        ensures
            match limited_message(data@) {
                Ok(m) => r is Ok && r->Ok_0@ == m,
                Err(e) => r is Err && r->Err_0@ == e,
            },
    {
        let update = match SubscribeUpdateLimitedDecode::decode(data.as_slice()) {
            Ok(update) => update,
            Err(e) => return Err(MessageParseError::Prost(e)),
        };
        proof {
            places::lemma_all_fields_below::<SubscribeUpdateLimitedDecode>(
                SubscribeUpdateLimitedDecode::empty(),
                data@,
            );
        }
        let created_at = match update.created_at {
            Some(created_at) => created_at,
            None => return Err(MessageParseError::FieldNotDefined("created_at")),
        };
        let update_oneof = match update.update_oneof {
            Some(update_oneof) => update_oneof,
            None => {
                return Err(
                    if update.richat_update {
                        MessageParseError::InvalidUpdateMessage("Richat")
                    } else {
                        MessageParseError::FieldNotDefined("update_oneof")
                    },
                );
            },
        };
        match update_oneof {
            UpdateOneofLimitedDecode::Slot(range) => match Self::parse_slot(
                data,
                range,
                created_at,
            ) {
                Ok(m) => Ok(Message::Slot(m)),
                Err(e) => Err(e),
            },
            UpdateOneofLimitedDecode::Account(range) => match Self::parse_account(
                data,
                range,
                created_at,
            ) {
                Ok(m) => Ok(Message::Account(m)),
                Err(e) => Err(e),
            },
            UpdateOneofLimitedDecode::Transaction(range) => match Self::parse_transaction(
                data,
                range,
                created_at,
            ) {
                Ok(m) => Ok(Message::Transaction(m)),
                Err(e) => Err(e),
            },
            UpdateOneofLimitedDecode::TransactionStatus(_) => Err(
                MessageParseError::InvalidUpdateMessage("TransactionStatus"),
            ),
            UpdateOneofLimitedDecode::Entry(range) => match Self::parse_entry(
                data,
                range,
                created_at,
            ) {
                Ok(m) => Ok(Message::Entry(m)),
                Err(e) => Err(e),
            },
            UpdateOneofLimitedDecode::BlockMeta(range) => match Self::parse_block_meta(
                data,
                range,
                created_at,
            ) {
                Ok(m) => Ok(Message::BlockMeta(m)),
                Err(e) => Err(e),
            },
            UpdateOneofLimitedDecode::Block(_) => Err(
                MessageParseError::InvalidUpdateMessage("Block"),
            ),
            UpdateOneofLimitedDecode::Ping(_) => Err(
                MessageParseError::InvalidUpdateMessage("Ping"),
            ),
            UpdateOneofLimitedDecode::Pong(_) => Err(
                MessageParseError::InvalidUpdateMessage("Pong"),
            ),
        }
    }

    fn parse_slot(data: Vec<u8>, range: Range<usize>, created_at: Timestamp) -> (r: Result<
        MessageSlot,
        MessageParseError,
    >)
        requires
            range.start <= range.end <= data@.len(),
        ensures
            match limited_slot(data@, decode::span(range), created_at) {
                Ok(m) => r is Ok && r->Ok_0@ == m,
                Err(e) => r is Err && r->Err_0@ == e,
            },
    {
        let payload: &[u8] = vstd::slice::slice_subrange(data.as_slice(), range.start, range.end);
        let message = match UpdateOneofLimitedDecodeSlot::decode(payload) {
            Ok(message) => message,
            Err(e) => return Err(MessageParseError::Prost(e)),
        };
        let status = match SlotStatus::from_number(message.status) {
            Some(status) => status,
            None => return Err(MessageParseError::InvalidEnumValue(message.status)),
        };
        proof {
            places::lemma_all_fields_below::<UpdateOneofLimitedDecodeSlot>(
                UpdateOneofLimitedDecodeSlot::empty(),
                payload@,
            );
        }
        let dead_error: Option<Range<usize>> = match message.dead_error {
            Some(sp) => Some(
                Range { start: range.start + sp.start, end: range.start + sp.end },
            ),
            None => None,
        };
        Ok(
            MessageSlot::Limited {
                slot: message.slot,
                parent: message.parent,
                status,
                dead_error,
                created_at,
                buffer: data,
                range,
            },
        )
    }

    fn parse_account(data: Vec<u8>, range: Range<usize>, created_at: Timestamp) -> (r: Result<
        MessageAccount,
        MessageParseError,
    >)
        requires
            range.start <= range.end <= data@.len(),
        ensures
            match limited_account(data@, decode::span(range), created_at) {
                Ok(m) => r is Ok && r->Ok_0@ == m,
                Err(e) => r is Err && r->Err_0@ == e,
            },
    {
        let payload: &[u8] = vstd::slice::slice_subrange(data.as_slice(), range.start, range.end);
        let message = match UpdateOneofLimitedDecodeAccount::decode(payload) {
            Ok(message) => message,
            Err(e) => return Err(MessageParseError::Prost(e)),
        };
        if message.account == usize::MAX {
            return Err(MessageParseError::FieldNotDefined("account"));
        }
        proof {
            write_version::lemma_update_places(
                UpdateOneofLimitedDecodeAccount::empty(),
                payload@,
                0,
            );
        }
        let start: usize = range.start;
        let data_range: Range<usize> = Range {
            start: message.data.start + start,
            end: message.data.end + start,
        };
        let txn_signature_offset = match message.txn_signature_offset {
            Some(offset) => Some(offset + start),
            None => None,
        };
        let write_version: usize = if message.write_version == usize::MAX {
            usize::MAX
        } else {
            message.write_version + start
        };
        Ok(
            MessageAccount::Limited {
                pubkey: message.pubkey,
                owner: message.owner,
                lamports: message.lamports,
                executable: message.executable,
                rent_epoch: message.rent_epoch,
                data: data_range,
                txn_signature_offset,
                write_version,
                slot: message.slot,
                is_startup: message.is_startup,
                created_at,
                buffer: data,
                account_offset: message.account + start,
                range,
            },
        )
    }

    fn parse_transaction(data: Vec<u8>, range: Range<usize>, created_at: Timestamp) -> (r: Result<
        MessageTransaction,
        MessageParseError,
    >)
        requires
            range.start <= range.end <= data@.len(),
        ensures
            match limited_transaction(data@, decode::span(range), created_at) {
                Ok(m) => r is Ok && r->Ok_0@ == m,
                Err(e) => r is Err && r->Err_0@ == e,
            },
    {
        let payload: &[u8] = vstd::slice::slice_subrange(data.as_slice(), range.start, range.end);
        let message = match UpdateOneofLimitedDecodeTransaction::decode(payload) {
            Ok(message) => message,
            Err(e) => return Err(MessageParseError::Prost(e)),
        };
        proof {
            places::lemma_all_fields_below::<UpdateOneofLimitedDecodeTransaction>(
                UpdateOneofLimitedDecodeTransaction::empty(),
                payload@,
            );
        }
        let transaction_range: Range<usize> = match message.transaction {
            Some(inner) => Range { start: inner.start + range.start, end: inner.end + range.start },
            None => return Err(MessageParseError::FieldNotDefined("transaction")),
        };
        let transaction: &[u8] = vstd::slice::slice_subrange(
            data.as_slice(),
            transaction_range.start,
            transaction_range.end,
        );
        let tx_info = match UpdateOneofLimitedDecodeTransactionInfo::decode(transaction) {
            Ok(tx_info) => tx_info,
            Err(e) => return Err(MessageParseError::Prost(e)),
        };
        proof {
            places::lemma_all_fields_below::<UpdateOneofLimitedDecodeTransactionInfo>(
                UpdateOneofLimitedDecodeTransactionInfo::empty(),
                transaction@,
            );
        }
        let error = match tx_info.err {
            Some(err) => {
                let bytes: &[u8] = vstd::slice::slice_subrange(
                    data.as_slice(),
                    transaction_range.start + err.start,
                    transaction_range.start + err.end,
                );
                match geyser::decode_transaction_error(bytes) {
                    Ok(error) => Some(error),
                    Err(_) => {
                        return Err(
                            MessageParseError::Prost(
                                error::create_decode_error(DecodeErrorKind::InvalidMessage),
                            ),
                        );
                    },
                }
            },
            None => None,
        };
        let signature_offset = match tx_info.signature_offset {
            Some(offset) => Some(transaction_range.start + offset),
            None => None,
        };
        Ok(
            MessageTransaction::Limited {
                signature_offset,
                error,
                account_keys: tx_info.account_keys,
                is_vote: tx_info.is_vote,
                index: tx_info.index,
                transaction_range,
                slot: message.slot,
                created_at,
                buffer: data,
                range,
            },
        )
    }

    fn parse_entry(data: Vec<u8>, range: Range<usize>, created_at: Timestamp) -> (r: Result<
        MessageEntry,
        MessageParseError,
    >)
        requires
            range.start <= range.end <= data@.len(),
        ensures
            match limited_entry(data@, decode::span(range), created_at) {
                Ok(m) => r is Ok && r->Ok_0@ == m,
                Err(e) => r is Err && r->Err_0@ == e,
            },
    {
        let payload: &[u8] = vstd::slice::slice_subrange(data.as_slice(), range.start, range.end);
        match UpdateOneofLimitedDecodeEntry::decode(payload) {
            Ok(entry) => Ok(
                MessageEntry::Limited {
                    slot: entry.slot,
                    index: entry.index,
                    executed_transaction_count: entry.executed_transaction_count,
                    created_at,
                    buffer: data,
                    range,
                },
            ),
            Err(e) => Err(MessageParseError::Prost(e)),
        }
    }

    fn parse_block_meta(data: Vec<u8>, range: Range<usize>, created_at: Timestamp) -> (r: Result<
        MessageBlockMeta,
        MessageParseError,
    >)
        requires
            range.start <= range.end <= data@.len(),
        ensures
            match limited_block_meta(data@, decode::span(range), created_at) {
                Ok(m) => r is Ok && r->Ok_0@ == m,
                Err(e) => r is Err && r->Err_0@ == e,
            },
    {
        let payload: &[u8] = vstd::slice::slice_subrange(data.as_slice(), range.start, range.end);
        let block_meta = match geyser::decode_block_meta(payload) {
            Ok(block_meta) => block_meta,
            Err(_) => {
                return Err(
                    MessageParseError::Prost(
                        error::create_decode_error(DecodeErrorKind::InvalidMessage),
                    ),
                );
            },
        };
        match block_meta.block_height {
            Some(block_height) => Ok(
                MessageBlockMeta::Limited {
                    block_meta,
                    block_height,
                    created_at,
                    buffer: data,
                    range,
                },
            ),
            None => Err(MessageParseError::FieldNotDefined("block_height")),
        }
    }
}

// ---------------------------------------------------------------------------------------------
// What messages say
// ---------------------------------------------------------------------------------------------

impl MessageSlotView {
    /// Which parser made the message.
    pub open spec fn encoding(self) -> MessageParserEncoding {
        match self {
            MessageSlotView::Limited { .. } => MessageParserEncoding::Limited,
            MessageSlotView::Prost { .. } => MessageParserEncoding::Prost,
        }
    }

    /// When the update was made.
    pub open spec fn created_at(self) -> Timestamp {
        match self {
            MessageSlotView::Limited { created_at, .. } => created_at,
            MessageSlotView::Prost { created_at, .. } => created_at,
        }
    }

    /// The slot.
    pub open spec fn slot(self) -> Slot {
        match self {
            MessageSlotView::Limited { slot, .. } => slot,
            MessageSlotView::Prost { slot, .. } => slot,
        }
    }

    /// What happened to the slot.
    pub open spec fn status(self) -> SlotStatus {
        match self {
            MessageSlotView::Limited { status, .. } => status,
            MessageSlotView::Prost { status, .. } => status,
        }
    }

    /// The slot that the slot builds on.
    pub open spec fn parent(self) -> Option<Slot> {
        match self {
            MessageSlotView::Limited { parent, .. } => parent,
            MessageSlotView::Prost { parent, .. } => parent,
        }
    }

    /// What the message costs to keep.
    pub open spec fn size(self) -> nat {
        match self {
            MessageSlotView::Limited { buffer, .. } => buffer.len() + 64,
            MessageSlotView::Prost { size, .. } => size,
        }
    }

    /// Whether the places lie within the buffer.
    pub open spec fn in_bounds(self) -> bool {
        match self {
            MessageSlotView::Limited { dead_error, buffer, range, .. } => {
                &&& range.start <= range.end <= buffer.len()
                &&& places::span_below(dead_error, buffer.len())
            },
            MessageSlotView::Prost { .. } => true,
        }
    }

    /// The bytes that say why the slot is dead, if there are any.
    pub open spec fn dead_error_bytes(self) -> Option<Seq<u8>> {
        match self {
            MessageSlotView::Limited { dead_error, buffer, .. } => match dead_error {
                Some(sp) => Some(account::bytes_at(buffer, sp)),
                None => None,
            },
            MessageSlotView::Prost { dead_error, .. } => match dead_error {
                Some(text) => Some(vstd::utf8::encode_utf8(text)),
                None => None,
            },
        }
    }
}

/// `std::str::from_utf8`: the text that the bytes encode, where they encode one.
#[verifier::external_body]
pub(crate) fn text_of(bytes: &[u8]) -> (r: Option<&str>)
    ensures
        r is Some <==> vstd::utf8::valid_utf8(bytes@),
        r is Some ==> vstd::utf8::encode_utf8(r->Some_0@) == bytes@,
{
    std::str::from_utf8(bytes).ok()
}

impl MessageSlot {
    /// Which parser made the message.
    pub fn encoding(&self) -> (r: MessageParserEncoding)
        ensures
            r == self@.encoding(),
    {
        match self {
            MessageSlot::Limited { .. } => MessageParserEncoding::Limited,
            MessageSlot::Prost { .. } => MessageParserEncoding::Prost,
        }
    }

    /// When the update was made.
    pub fn created_at(&self) -> (r: MessageBlockCreatedAt)
        ensures
            r == created_at_with(self@.encoding(), self@.created_at()),
    {
        match self {
            MessageSlot::Limited { created_at, .. } => MessageBlockCreatedAt::Limited(*created_at),
            MessageSlot::Prost { created_at, .. } => MessageBlockCreatedAt::Prost(*created_at),
        }
    }

    /// The slot.
    pub fn slot(&self) -> (r: Slot)
        ensures
            r == self@.slot(),
    {
        match self {
            MessageSlot::Limited { slot, .. } => *slot,
            MessageSlot::Prost { slot, .. } => *slot,
        }
    }

    /// What happened to the slot.
    pub fn status(&self) -> (r: SlotStatus)
        ensures
            r == self@.status(),
    {
        match self {
            MessageSlot::Limited { status, .. } => *status,
            MessageSlot::Prost { status, .. } => *status,
        }
    }

    /// The slot that the slot builds on.
    pub fn parent(&self) -> (r: Option<Slot>)
        ensures
            r == self@.parent(),
    {
        match self {
            MessageSlot::Limited { parent, .. } => *parent,
            MessageSlot::Prost { parent, .. } => *parent,
        }
    }

    /// What the message costs to keep.
    pub fn size(&self) -> (r: usize)
        requires
            self@.size() <= usize::MAX,
        ensures
            r == self@.size(),
    {
        match self {
            MessageSlot::Limited { buffer, .. } => buffer.len() + 64,
            MessageSlot::Prost { size, .. } => *size,
        }
    }

    /// Why the slot is dead. Bytes that are no text tell no reason.
    pub fn dead_error(&self) -> (r: Option<&str>)
        requires
            self@.in_bounds(),
        ensures
            match r {
                Some(text) => self@.dead_error_bytes() == Some(vstd::utf8::encode_utf8(text@)),
                None => self@.dead_error_bytes() matches Some(bytes) ==> !vstd::utf8::valid_utf8(
                    bytes,
                ),
            },
    {
        match self {
            MessageSlot::Limited { dead_error, buffer, .. } => match dead_error {
                Some(range) => {
                    let bytes: &[u8] = vstd::slice::slice_subrange(
                        buffer.as_slice(),
                        range.start,
                        range.end,
                    );
                    text_of(bytes)
                },
                None => None,
            },
            MessageSlot::Prost { dead_error, .. } => match dead_error {
                Some(text) => Some(text.as_str()),
                None => None,
            },
        }
    }
}

impl MessageTransactionView {
    /// Which parser made the message.
    pub open spec fn encoding(self) -> MessageParserEncoding {
        match self {
            MessageTransactionView::Limited { .. } => MessageParserEncoding::Limited,
            MessageTransactionView::Prost { .. } => MessageParserEncoding::Prost,
        }
    }

    /// When the update was made.
    pub open spec fn created_at(self) -> Timestamp {
        match self {
            MessageTransactionView::Limited { created_at, .. } => created_at,
            MessageTransactionView::Prost { created_at, .. } => created_at,
        }
    }

    /// The slot of the transaction.
    pub open spec fn slot(self) -> Slot {
        match self {
            MessageTransactionView::Limited { slot, .. } => slot,
            MessageTransactionView::Prost { slot, .. } => slot,
        }
    }

    /// Whether the transaction is a vote.
    pub open spec fn vote(self) -> bool {
        match self {
            MessageTransactionView::Limited { is_vote, .. } => is_vote,
            MessageTransactionView::Prost { transaction, .. } => transaction.is_vote,
        }
    }

    /// The index of the transaction in its slot.
    pub open spec fn index(self) -> u64 {
        match self {
            MessageTransactionView::Limited { index, .. } => index,
            MessageTransactionView::Prost { transaction, .. } => transaction.index,
        }
    }

    /// Whether the transaction failed.
    pub open spec fn failed(self) -> bool {
        match self {
            MessageTransactionView::Limited { error, .. } => error is Some,
            MessageTransactionView::Prost { error, .. } => error is Some,
        }
    }

    /// The static and the loaded account keys of the transaction.
    pub open spec fn account_keys(self) -> Set<Seq<u8>> {
        match self {
            MessageTransactionView::Limited { account_keys, .. } => account_keys,
            MessageTransactionView::Prost { account_keys, .. } => account_keys,
        }
    }

    /// Why the transaction failed.
    pub open spec fn error(self) -> Option<Seq<u8>> {
        match self {
            MessageTransactionView::Limited { error, .. } => error,
            MessageTransactionView::Prost { error, .. } => error,
        }
    }

    /// Whether the places lie within the buffer.
    pub open spec fn in_bounds(self) -> bool {
        match self {
            MessageTransactionView::Limited {
                signature,
                transaction_range,
                buffer,
                range,
                ..
            } => {
                &&& range.start <= range.end <= buffer.len()
                &&& transaction_range.start <= transaction_range.end <= buffer.len()
                &&& signature matches Some(x) ==> x + 64 <= buffer.len()
            },
            MessageTransactionView::Prost { .. } => true,
        }
    }

    /// Whether there is a signature.
    pub open spec fn signed(self) -> bool {
        match self {
            MessageTransactionView::Limited { signature, .. } => signature is Some,
            MessageTransactionView::Prost { .. } => true,
        }
    }

    /// The signature.
    pub open spec fn signature(self) -> Seq<u8> {
        match self {
            MessageTransactionView::Limited { signature, buffer, .. } => account::signature_at(
                buffer,
                signature,
            )->Some_0,
            MessageTransactionView::Prost { transaction, .. } => transaction.signature,
        }
    }

    /// The keys of the accounts of the transaction.
    pub open spec fn keys(self) -> Set<Seq<u8>> {
        match self {
            MessageTransactionView::Limited { account_keys, .. } => account_keys,
            MessageTransactionView::Prost { account_keys, .. } => account_keys,
        }
    }

    /// What the message costs to keep, its set of keys not counted.
    pub open spec fn base_size(self) -> nat {
        match self {
            MessageTransactionView::Limited { buffer, .. } => buffer.len() * 2,
            MessageTransactionView::Prost { size, .. } => size,
        }
    }

    /// What the message costs to keep, where its set of keys has room for `capacity` of them.
    pub open spec fn size_with(self, capacity: nat) -> nat {
        self.base_size() + capacity * 32
    }
}

impl MessageTransaction {
    /// Which parser made the message.
    pub fn encoding(&self) -> (r: MessageParserEncoding)
        ensures
            r == self@.encoding(),
    {
        match self {
            MessageTransaction::Limited { .. } => MessageParserEncoding::Limited,
            MessageTransaction::Prost { .. } => MessageParserEncoding::Prost,
        }
    }

    /// When the update was made.
    pub fn created_at(&self) -> (r: MessageBlockCreatedAt)
        ensures
            r == created_at_with(self@.encoding(), self@.created_at()),
    {
        match self {
            MessageTransaction::Limited { created_at, .. } => MessageBlockCreatedAt::Limited(*created_at),
            MessageTransaction::Prost { created_at, .. } => MessageBlockCreatedAt::Prost(*created_at),
        }
    }

    /// The slot of the transaction.
    pub fn slot(&self) -> (r: Slot)
        ensures
            r == self@.slot(),
    {
        match self {
            MessageTransaction::Limited { slot, .. } => *slot,
            MessageTransaction::Prost { slot, .. } => *slot,
        }
    }

    /// Whether the transaction is a vote.
    pub fn vote(&self) -> (r: bool)
        ensures
            r == self@.vote(),
    {
        match self {
            MessageTransaction::Limited { is_vote, .. } => *is_vote,
            MessageTransaction::Prost { transaction, .. } => transaction.is_vote,
        }
    }

    /// The index of the transaction in its slot.
    pub fn index(&self) -> (r: u64)
        ensures
            r == self@.index(),
    {
        match self {
            MessageTransaction::Limited { index, .. } => *index,
            MessageTransaction::Prost { transaction, .. } => transaction.index,
        }
    }

    /// Whether the transaction failed.
    pub fn failed(&self) -> (r: bool)
        ensures
            r == self@.failed(),
    {
        match self {
            MessageTransaction::Limited { error, .. } => error.is_some(),
            MessageTransaction::Prost { error, .. } => error.is_some(),
        }
    }

    /// The number of keys that the set of keys has room for.
    pub fn key_capacity(&self) -> (r: usize)
        ensures
            r >= self@.keys().len(),
    {
        match self {
            MessageTransaction::Limited { account_keys, .. } => account_keys.capacity(),
            MessageTransaction::Prost { account_keys, .. } => account_keys.capacity(),
        }
    }

    /// What the message costs to keep, where its set of keys has room for `capacity` of them.
    pub fn size_with(&self, capacity: usize) -> (r: usize)
        requires
            self@.base_size() <= usize::MAX,
        ensures
            r == parser::size_of(self@.size_with(capacity as nat)),
    {
        let base: usize = match self {
            MessageTransaction::Limited { buffer, .. } => buffer.len() * 2,
            MessageTransaction::Prost { size, .. } => *size,
        };
        let keys: usize = if capacity <= usize::MAX / pubkey::PUBKEY_BYTES {
            capacity * pubkey::PUBKEY_BYTES
        } else {
            usize::MAX
        };
        parser::sum(base, keys)
    }

    /// What the message costs to keep. The room in its set of keys counts, and the allocator decides
    /// how much there is beyond the keys themselves.
    pub fn size(&self) -> (r: usize)
        requires
            self@.base_size() <= usize::MAX,
        ensures
            exists|capacity: nat|
                capacity >= self@.keys().len() && r == parser::size_of(
                    #[trigger] self@.size_with(capacity),
                ),
    {
        let capacity: usize = self.key_capacity();
        let r: usize = self.size_with(capacity);
        assert(capacity as nat >= self@.keys().len() && r == parser::size_of(
            self@.size_with(capacity as nat),
        ));
        r
    }

    /// The static and the loaded account keys of the transaction.
    pub fn account_keys(&self) -> (r: &PubkeySet)
        ensures
            r@ == self@.account_keys(),
    {
        match self {
            MessageTransaction::Limited { account_keys, .. } => account_keys,
            MessageTransaction::Prost { account_keys, .. } => account_keys,
        }
    }

    /// Why the transaction failed.
    pub fn error(&self) -> (r: &Option<TransactionError>)
        ensures
            geyser::error_opt(*r) == self@.error(),
    {
        match self {
            MessageTransaction::Limited { error, .. } => error,
            MessageTransaction::Prost { error, .. } => error,
        }
    }

    /// The bytes of the signature.
    pub fn signature_ref(&self) -> (r: &[u8])
        requires
            self@.in_bounds(),
            self@.signed(),
        ensures
            r@ == self@.signature(),
    {
        match self {
            MessageTransaction::Limited { signature_offset, buffer, .. } => {
                assert(buffer@.len() == buffer.len());
                let offset: usize = match signature_offset {
                    Some(offset) => *offset,
                    None => 0,
                };
                vstd::slice::slice_subrange(
                    buffer.as_slice(),
                    offset,
                    offset + pubkey::SIGNATURE_BYTES,
                )
            },
            MessageTransaction::Prost { transaction, .. } => transaction.signature.as_slice(),
        }
    }

    /// The signature.
    pub fn signature(&self) -> (r: Signature)
        requires
            self@.in_bounds(),
            self@.signed(),
            self@.signature().len() == 64,
        ensures
            r@ == self@.signature(),
    {
        match Signature::from_slice(self.signature_ref()) {
            Some(signature) => signature,
            None => Signature { bytes: [0u8; 64] },
        }
    }
}

impl MessageEntryView {
    /// Which parser made the message.
    pub open spec fn encoding(self) -> MessageParserEncoding {
        match self {
            MessageEntryView::Limited { .. } => MessageParserEncoding::Limited,
            MessageEntryView::Prost { .. } => MessageParserEncoding::Prost,
        }
    }

    /// When the update was made.
    pub open spec fn created_at(self) -> Timestamp {
        match self {
            MessageEntryView::Limited { created_at, .. } => created_at,
            MessageEntryView::Prost { created_at, .. } => created_at,
        }
    }

    /// The slot of the entry.
    pub open spec fn slot(self) -> Slot {
        match self {
            MessageEntryView::Limited { slot, .. } => slot,
            MessageEntryView::Prost { entry, .. } => entry.slot,
        }
    }

    /// The index of the entry in its slot.
    pub open spec fn index(self) -> u64 {
        match self {
            MessageEntryView::Limited { index, .. } => index,
            MessageEntryView::Prost { entry, .. } => entry.index,
        }
    }

    /// How many transactions the entry holds.
    pub open spec fn executed_transaction_count(self) -> u64 {
        match self {
            MessageEntryView::Limited { executed_transaction_count, .. } => executed_transaction_count,
            MessageEntryView::Prost { entry, .. } => entry.executed_transaction_count,
        }
    }

    /// What the message costs to keep.
    pub open spec fn size(self) -> nat {
        match self {
            MessageEntryView::Limited { buffer, .. } => buffer.len() + 52,
            MessageEntryView::Prost { size, .. } => size,
        }
    }

    /// Whether the update lies within the buffer.
    pub open spec fn in_bounds(self) -> bool {
        match self {
            MessageEntryView::Limited { buffer, range, .. } => range.start <= range.end
                <= buffer.len(),
            MessageEntryView::Prost { .. } => true,
        }
    }
}

impl MessageEntry {
    /// Which parser made the message.
    pub fn encoding(&self) -> (r: MessageParserEncoding)
        ensures
            r == self@.encoding(),
    {
        match self {
            MessageEntry::Limited { .. } => MessageParserEncoding::Limited,
            MessageEntry::Prost { .. } => MessageParserEncoding::Prost,
        }
    }

    /// When the update was made.
    pub fn created_at(&self) -> (r: MessageBlockCreatedAt)
        ensures
            r == created_at_with(self@.encoding(), self@.created_at()),
    {
        match self {
            MessageEntry::Limited { created_at, .. } => MessageBlockCreatedAt::Limited(*created_at),
            MessageEntry::Prost { created_at, .. } => MessageBlockCreatedAt::Prost(*created_at),
        }
    }

    /// The slot of the entry.
    pub fn slot(&self) -> (r: Slot)
        ensures
            r == self@.slot(),
    {
        match self {
            MessageEntry::Limited { slot, .. } => *slot,
            MessageEntry::Prost { entry, .. } => entry.slot,
        }
    }

    /// The index of the entry in its slot.
    pub fn index(&self) -> (r: u64)
        ensures
            r == self@.index(),
    {
        match self {
            MessageEntry::Limited { index, .. } => *index,
            MessageEntry::Prost { entry, .. } => entry.index,
        }
    }

    /// How many transactions the entry holds.
    pub fn executed_transaction_count(&self) -> (r: u64)
        ensures
            r == self@.executed_transaction_count(),
    {
        match self {
            MessageEntry::Limited { executed_transaction_count, .. } => *executed_transaction_count,
            MessageEntry::Prost { entry, .. } => entry.executed_transaction_count,
        }
    }

    /// What the message costs to keep.
    pub fn size(&self) -> (r: usize)
        requires
            self@.size() <= usize::MAX,
        ensures
            r == self@.size(),
    {
        match self {
            MessageEntry::Limited { buffer, .. } => buffer.len() + 52,
            MessageEntry::Prost { size, .. } => *size,
        }
    }
}

impl MessageBlockMetaView {
    /// Which parser made the message.
    pub open spec fn encoding(self) -> MessageParserEncoding {
        match self {
            MessageBlockMetaView::Limited { .. } => MessageParserEncoding::Limited,
            MessageBlockMetaView::Prost { .. } => MessageParserEncoding::Prost,
        }
    }

    /// When the update was made.
    pub open spec fn created_at(self) -> Timestamp {
        match self {
            MessageBlockMetaView::Limited { created_at, .. } => created_at,
            MessageBlockMetaView::Prost { created_at, .. } => created_at,
        }
    }

    /// The slot of the block.
    pub open spec fn slot(self) -> Slot {
        match self {
            MessageBlockMetaView::Limited { block_meta, .. } => block_meta.slot,
            MessageBlockMetaView::Prost { block_meta, .. } => block_meta.slot,
        }
    }

    /// The height of the block.
    pub open spec fn block_height(self) -> Slot {
        match self {
            MessageBlockMetaView::Limited { block_height, .. } => block_height,
            MessageBlockMetaView::Prost { block_height, .. } => block_height,
        }
    }

    /// How many transactions the block holds.
    pub open spec fn executed_transaction_count(self) -> u64 {
        match self {
            MessageBlockMetaView::Limited { block_meta, .. } => block_meta.executed_transaction_count,
            MessageBlockMetaView::Prost { block_meta, .. } => block_meta.executed_transaction_count,
        }
    }

    /// How many entries the block holds.
    pub open spec fn entries_count(self) -> u64 {
        match self {
            MessageBlockMetaView::Limited { block_meta, .. } => block_meta.entries_count,
            MessageBlockMetaView::Prost { block_meta, .. } => block_meta.entries_count,
        }
    }

    /// What the message costs to keep.
    pub open spec fn size(self) -> nat {
        match self {
            MessageBlockMetaView::Limited { buffer, .. } => buffer.len() * 2,
            MessageBlockMetaView::Prost { size, .. } => size,
        }
    }

    /// The metadata.
    pub open spec fn block_meta(self) -> BlockMetaView {
        match self {
            MessageBlockMetaView::Limited { block_meta, .. } => block_meta,
            MessageBlockMetaView::Prost { block_meta, .. } => block_meta,
        }
    }

    /// Whether the update lies within the buffer.
    pub open spec fn in_bounds(self) -> bool {
        match self {
            MessageBlockMetaView::Limited { buffer, range, .. } => range.start <= range.end
                <= buffer.len(),
            MessageBlockMetaView::Prost { .. } => true,
        }
    }
}

impl MessageBlockMeta {
    /// Which parser made the message.
    pub fn encoding(&self) -> (r: MessageParserEncoding)
        ensures
            r == self@.encoding(),
    {
        match self {
            MessageBlockMeta::Limited { .. } => MessageParserEncoding::Limited,
            MessageBlockMeta::Prost { .. } => MessageParserEncoding::Prost,
        }
    }

    /// When the update was made.
    pub fn created_at(&self) -> (r: MessageBlockCreatedAt)
        ensures
            r == created_at_with(self@.encoding(), self@.created_at()),
    {
        match self {
            MessageBlockMeta::Limited { created_at, .. } => MessageBlockCreatedAt::Limited(*created_at),
            MessageBlockMeta::Prost { created_at, .. } => MessageBlockCreatedAt::Prost(*created_at),
        }
    }

    /// The slot of the block.
    pub fn slot(&self) -> (r: Slot)
        ensures
            r == self@.slot(),
    {
        match self {
            MessageBlockMeta::Limited { block_meta, .. } => block_meta.slot,
            MessageBlockMeta::Prost { block_meta, .. } => block_meta.slot,
        }
    }

    /// The height of the block.
    pub fn block_height(&self) -> (r: Slot)
        ensures
            r == self@.block_height(),
    {
        match self {
            MessageBlockMeta::Limited { block_height, .. } => *block_height,
            MessageBlockMeta::Prost { block_height, .. } => *block_height,
        }
    }

    /// How many transactions the block holds.
    pub fn executed_transaction_count(&self) -> (r: u64)
        ensures
            r == self@.executed_transaction_count(),
    {
        match self {
            MessageBlockMeta::Limited { block_meta, .. } => block_meta.executed_transaction_count,
            MessageBlockMeta::Prost { block_meta, .. } => block_meta.executed_transaction_count,
        }
    }

    /// How many entries the block holds.
    pub fn entries_count(&self) -> (r: u64)
        ensures
            r == self@.entries_count(),
    {
        match self {
            MessageBlockMeta::Limited { block_meta, .. } => block_meta.entries_count,
            MessageBlockMeta::Prost { block_meta, .. } => block_meta.entries_count,
        }
    }

    /// What the message costs to keep.
    pub fn size(&self) -> (r: usize)
        requires
            self@.size() <= usize::MAX,
        ensures
            r == self@.size(),
    {
        match self {
            MessageBlockMeta::Limited { buffer, .. } => buffer.len() * 2,
            MessageBlockMeta::Prost { size, .. } => *size,
        }
    }

    /// The metadata.
    pub fn block_meta(&self) -> (r: &SubscribeUpdateBlockMeta)
        ensures
            r@ == self@.block_meta(),
    {
        match self {
            MessageBlockMeta::Limited { block_meta, .. } => block_meta,
            MessageBlockMeta::Prost { block_meta, .. } => block_meta,
        }
    }

    /// The hash of the block.
    pub fn blockhash(&self) -> (r: &str)
        ensures
            r@ == self@.block_meta().blockhash,
    {
        self.block_meta().blockhash.as_str()
    }
}

} // verus!
