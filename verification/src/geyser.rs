//! The updates of a Geyser stream, as plain values, and how `prost` decodes them.
use prost::Message;
use vstd::prelude::*;

use yellowstone_grpc_proto::geyser as proto;
use yellowstone_grpc_proto::solana::storage::confirmed_block;

use crate::codec::Timestamp;
use crate::error;
use crate::error::{DecodeErrorKind, Failure};
use crate::fields;
use crate::fields::FieldStep;
use crate::decode;
use crate::decode::{Span, TransactionFields, TransactionInfoModel, TransactionMetaFields};
use crate::encode;
use crate::message;
use crate::parser;
use crate::round_trip;
use crate::wire;
use crate::wire::WireType;

verus! {

/// What happened to a slot.
#[derive(Debug, Clone, Copy, PartialEq, Eq, Structural)]
pub enum SlotStatus {
    SlotProcessed,
    SlotConfirmed,
    SlotFinalized,
    SlotFirstShredReceived,
    SlotCompleted,
    SlotCreatedBank,
    SlotDead,
}

/// The status that `number` stands for, where it stands for one.
pub open spec fn slot_status_of(number: i32) -> Option<SlotStatus> {
    if number == 0 {
        Some(SlotStatus::SlotProcessed)
    } else if number == 1 {
        Some(SlotStatus::SlotConfirmed)
    } else if number == 2 {
        Some(SlotStatus::SlotFinalized)
    } else if number == 3 {
        Some(SlotStatus::SlotFirstShredReceived)
    } else if number == 4 {
        Some(SlotStatus::SlotCompleted)
    } else if number == 5 {
        Some(SlotStatus::SlotCreatedBank)
    } else if number == 6 {
        Some(SlotStatus::SlotDead)
    } else {
        None
    }
}

/// The number that stands for a status.
pub open spec fn slot_status_number(status: SlotStatus) -> i32 {
    match status {
        SlotStatus::SlotProcessed => 0,
        SlotStatus::SlotConfirmed => 1,
        SlotStatus::SlotFinalized => 2,
        SlotStatus::SlotFirstShredReceived => 3,
        SlotStatus::SlotCompleted => 4,
        SlotStatus::SlotCreatedBank => 5,
        SlotStatus::SlotDead => 6,
    }
}

impl SlotStatus {
    /// The status that `number` stands for, where it stands for one.
    pub fn from_number(number: i32) -> (r: Option<SlotStatus>)
        ensures
            r == slot_status_of(number),
    {
        match number {
            0 => Some(SlotStatus::SlotProcessed),
            1 => Some(SlotStatus::SlotConfirmed),
            2 => Some(SlotStatus::SlotFinalized),
            3 => Some(SlotStatus::SlotFirstShredReceived),
            4 => Some(SlotStatus::SlotCompleted),
            5 => Some(SlotStatus::SlotCreatedBank),
            6 => Some(SlotStatus::SlotDead),
            _ => None,
        }
    }

    /// The number that stands for the status.
    pub fn number(&self) -> (r: i32)
        ensures
            r == slot_status_number(*self),
    {
        match self {
            SlotStatus::SlotProcessed => 0,
            SlotStatus::SlotConfirmed => 1,
            SlotStatus::SlotFinalized => 2,
            SlotStatus::SlotFirstShredReceived => 3,
            SlotStatus::SlotCompleted => 4,
            SlotStatus::SlotCreatedBank => 5,
            SlotStatus::SlotDead => 6,
        }
    }
}

/// How settled a slot is.
#[derive(Debug, Clone, Copy, PartialEq, Eq, Structural)]
pub enum CommitmentLevel {
    Processed,
    Confirmed,
    Finalized,
}

/// The bytes of `v`, if there are any.
pub open spec fn bytes_opt(v: Option<Vec<u8>>) -> Option<Seq<u8>> {
    match v {
        Some(b) => Some(b@),
        None => None,
    }
}

/// The characters of `v`, if there are any.
pub open spec fn text_opt(v: Option<String>) -> Option<Seq<char>> {
    match v {
        Some(s) => Some(s@),
        None => None,
    }
}

/// The characters of each of `v`.
pub open spec fn text_each(v: Seq<String>) -> Seq<Seq<char>> {
    v.map_values(|s: String| s@)
}

/// The bytes of each of `v`.
pub open spec fn bytes_each(v: Seq<Vec<u8>>) -> Seq<Seq<u8>> {
    v.map_values(|b: Vec<u8>| b@)
}

/// A slot update.
#[derive(Debug)]
pub struct SubscribeUpdateSlot {
    pub slot: u64,
    pub parent: Option<u64>,
    pub status: i32,
    pub dead_error: Option<String>,
}

/// What a slot update holds.
pub ghost struct SlotView {
    pub slot: u64,
    pub parent: Option<u64>,
    pub status: i32,
    pub dead_error: Option<Seq<char>>,
}

impl View for SubscribeUpdateSlot {
    type V = SlotView;

    open spec fn view(&self) -> SlotView {
        SlotView {
            slot: self.slot,
            parent: self.parent,
            status: self.status,
            dead_error: text_opt(self.dead_error),
        }
    }
}

/// An account.
#[derive(Debug, PartialEq, Eq)]
pub struct SubscribeUpdateAccountInfo {
    pub pubkey: Vec<u8>,
    pub lamports: u64,
    pub owner: Vec<u8>,
    pub executable: bool,
    pub rent_epoch: u64,
    pub data: Vec<u8>,
    pub write_version: u64,
    pub txn_signature: Option<Vec<u8>>,
}

/// What an account holds.
pub ghost struct AccountInfoView {
    pub pubkey: Seq<u8>,
    pub lamports: u64,
    pub owner: Seq<u8>,
    pub executable: bool,
    pub rent_epoch: u64,
    pub data: Seq<u8>,
    pub write_version: u64,
    pub txn_signature: Option<Seq<u8>>,
}

impl View for SubscribeUpdateAccountInfo {
    type V = AccountInfoView;

    open spec fn view(&self) -> AccountInfoView {
        AccountInfoView {
            pubkey: self.pubkey@,
            lamports: self.lamports,
            owner: self.owner@,
            executable: self.executable,
            rent_epoch: self.rent_epoch,
            data: self.data@,
            write_version: self.write_version,
            txn_signature: bytes_opt(self.txn_signature),
        }
    }
}

/// An account update.
#[derive(Debug)]
pub struct SubscribeUpdateAccount {
    pub account: Option<SubscribeUpdateAccountInfo>,
    pub slot: u64,
    pub is_startup: bool,
}

/// What an account update holds.
pub ghost struct AccountView {
    pub account: Option<AccountInfoView>,
    pub slot: u64,
    pub is_startup: bool,
}

impl View for SubscribeUpdateAccount {
    type V = AccountView;

    open spec fn view(&self) -> AccountView {
        AccountView {
            account: match self.account {
                Some(a) => Some(a@),
                None => None,
            },
            slot: self.slot,
            is_startup: self.is_startup,
        }
    }
}

/// Why a transaction failed, as the validator encoded it.
#[derive(Debug)]
pub struct TransactionError {
    pub err: Vec<u8>,
}

impl View for TransactionError {
    type V = Seq<u8>;

    open spec fn view(&self) -> Seq<u8> {
        self.err@
    }
}

/// The encoded error, if there is one.
pub open spec fn error_opt(v: Option<TransactionError>) -> Option<Seq<u8>> {
    match v {
        Some(e) => Some(e@),
        None => None,
    }
}

/// The same error.
pub fn copy_error(error: &Option<TransactionError>) -> (r: Option<TransactionError>)
    ensures
        error_opt(r) == error_opt(*error),
{
    match error {
        Some(e) => Some(TransactionError { err: vstd::slice::slice_to_vec(e.err.as_slice()) }),
        None => None,
    }
}

/// A transaction: its static account keys, where it has a message, and the whole of it encoded.
#[derive(Debug)]
pub struct Transaction {
    pub account_keys: Option<Vec<Vec<u8>>>,
    pub encoded: Vec<u8>,
}

/// What a transaction holds.
pub ghost struct TransactionBodyView {
    pub account_keys: Option<Seq<Seq<u8>>>,
    pub encoded: Seq<u8>,
}

impl View for Transaction {
    type V = TransactionBodyView;

    open spec fn view(&self) -> TransactionBodyView {
        TransactionBodyView {
            account_keys: match self.account_keys {
                Some(keys) => Some(bytes_each(keys@)),
                None => None,
            },
            encoded: self.encoded@,
        }
    }
}

/// What is known of a transaction once it ran: its error, the addresses that it loaded, and the
/// whole of it encoded.
#[derive(Debug)]
pub struct TransactionStatusMeta {
    pub err: Option<TransactionError>,
    pub loaded_writable_addresses: Vec<Vec<u8>>,
    pub loaded_readonly_addresses: Vec<Vec<u8>>,
    pub encoded: Vec<u8>,
}

/// What transaction metadata holds.
pub ghost struct TransactionMetaView {
    pub err: Option<Seq<u8>>,
    pub loaded_writable_addresses: Seq<Seq<u8>>,
    pub loaded_readonly_addresses: Seq<Seq<u8>>,
    pub encoded: Seq<u8>,
}

impl View for TransactionStatusMeta {
    type V = TransactionMetaView;

    open spec fn view(&self) -> TransactionMetaView {
        TransactionMetaView {
            err: error_opt(self.err),
            loaded_writable_addresses: bytes_each(self.loaded_writable_addresses@),
            loaded_readonly_addresses: bytes_each(self.loaded_readonly_addresses@),
            encoded: self.encoded@,
        }
    }
}

/// A transaction of a block or of an update.
#[derive(Debug)]
pub struct SubscribeUpdateTransactionInfo {
    pub signature: Vec<u8>,
    pub is_vote: bool,
    pub transaction: Option<Transaction>,
    pub meta: Option<TransactionStatusMeta>,
    pub index: u64,
}

/// What a transaction of a block or of an update holds.
pub ghost struct TransactionInfoView {
    pub signature: Seq<u8>,
    pub is_vote: bool,
    pub transaction: Option<TransactionBodyView>,
    pub meta: Option<TransactionMetaView>,
    pub index: u64,
}

impl View for SubscribeUpdateTransactionInfo {
    type V = TransactionInfoView;

    open spec fn view(&self) -> TransactionInfoView {
        TransactionInfoView {
            signature: self.signature@,
            is_vote: self.is_vote,
            transaction: match self.transaction {
                Some(t) => Some(t@),
                None => None,
            },
            meta: match self.meta {
                Some(m) => Some(m@),
                None => None,
            },
            index: self.index,
        }
    }
}

/// How a transaction went.
#[derive(Debug)]
pub struct SubscribeUpdateTransactionStatus {
    pub slot: u64,
    pub signature: Vec<u8>,
    pub is_vote: bool,
    pub index: u64,
    pub err: Option<TransactionError>,
}

/// What is said of how a transaction went.
pub ghost struct TransactionStatusView {
    pub slot: u64,
    pub signature: Seq<u8>,
    pub is_vote: bool,
    pub index: u64,
    pub err: Option<Seq<u8>>,
}

impl View for SubscribeUpdateTransactionStatus {
    type V = TransactionStatusView;

    open spec fn view(&self) -> TransactionStatusView {
        TransactionStatusView {
            slot: self.slot,
            signature: self.signature@,
            is_vote: self.is_vote,
            index: self.index,
            err: error_opt(self.err),
        }
    }
}

/// An entry.
#[derive(Debug)]
pub struct SubscribeUpdateEntry {
    pub slot: u64,
    pub index: u64,
    pub num_hashes: u64,
    pub hash: Vec<u8>,
    pub executed_transaction_count: u64,
    pub starting_transaction_index: u64,
}

/// What an entry holds.
pub ghost struct EntryView {
    pub slot: u64,
    pub index: u64,
    pub num_hashes: u64,
    pub hash: Seq<u8>,
    pub executed_transaction_count: u64,
    pub starting_transaction_index: u64,
}

impl View for SubscribeUpdateEntry {
    type V = EntryView;

    open spec fn view(&self) -> EntryView {
        EntryView {
            slot: self.slot,
            index: self.index,
            num_hashes: self.num_hashes,
            hash: self.hash@,
            executed_transaction_count: self.executed_transaction_count,
            starting_transaction_index: self.starting_transaction_index,
        }
    }
}

/// The metadata of a block. The rewards are kept encoded.
#[derive(Debug)]
pub struct SubscribeUpdateBlockMeta {
    pub slot: u64,
    pub blockhash: String,
    pub rewards: Option<Vec<u8>>,
    pub block_time: Option<i64>,
    pub block_height: Option<u64>,
    pub parent_slot: u64,
    pub parent_blockhash: String,
    pub executed_transaction_count: u64,
    pub entries_count: u64,
}

/// What the metadata of a block holds.
pub ghost struct BlockMetaView {
    pub slot: u64,
    pub blockhash: Seq<char>,
    pub rewards: Option<Seq<u8>>,
    pub block_time: Option<i64>,
    pub block_height: Option<u64>,
    pub parent_slot: u64,
    pub parent_blockhash: Seq<char>,
    pub executed_transaction_count: u64,
    pub entries_count: u64,
}

impl View for SubscribeUpdateBlockMeta {
    type V = BlockMetaView;

    open spec fn view(&self) -> BlockMetaView {
        BlockMetaView {
            slot: self.slot,
            blockhash: self.blockhash@,
            rewards: bytes_opt(self.rewards),
            block_time: self.block_time,
            block_height: self.block_height,
            parent_slot: self.parent_slot,
            parent_blockhash: self.parent_blockhash@,
            executed_transaction_count: self.executed_transaction_count,
            entries_count: self.entries_count,
        }
    }
}

/// A block: its metadata, and its transactions, accounts and entries, each of them encoded.
#[derive(Debug)]
pub struct SubscribeUpdateBlock {
    pub meta: SubscribeUpdateBlockMeta,
    pub transactions: Vec<Vec<u8>>,
    pub updated_account_count: u64,
    pub accounts: Vec<Vec<u8>>,
    pub entries: Vec<Vec<u8>>,
}

/// What a block holds.
pub ghost struct BlockView {
    pub meta: BlockMetaView,
    pub transactions: Seq<Seq<u8>>,
    pub updated_account_count: u64,
    pub accounts: Seq<Seq<u8>>,
    pub entries: Seq<Seq<u8>>,
}

impl View for SubscribeUpdateBlock {
    type V = BlockView;

    open spec fn view(&self) -> BlockView {
        BlockView {
            meta: self.meta@,
            transactions: bytes_each(self.transactions@),
            updated_account_count: self.updated_account_count,
            accounts: bytes_each(self.accounts@),
            entries: bytes_each(self.entries@),
        }
    }
}

// ---------------------------------------------------------------------------------------------
// What is read back
// ---------------------------------------------------------------------------------------------

/// Whether the transaction was decoded. Its body and its metadata are then encoded as `prost` encodes
/// them.
pub open spec fn decoded_transaction(m: TransactionInfoView) -> bool {
    exists|bytes: Seq<u8>| #[trigger] prost_transaction_info(bytes) == Some(m)
}

/// Whether the metadata was decoded, by itself or with a block. The rewards are then encoded as `prost`
/// encodes them.
pub open spec fn decoded_block_meta(m: BlockMetaView) -> bool {
    ||| exists|bytes: Seq<u8>| #[trigger] prost_block_meta(bytes) == Some(m)
    ||| exists|bytes: Seq<u8>|
        (#[trigger] prost_block(bytes)) is Some && prost_block(bytes)->Some_0.meta == m
}

/// Whether the bytes are a transaction that was decoded, encoded again.
pub open spec fn encoded_transaction(bytes: Seq<u8>) -> bool {
    exists|m: TransactionInfoView|
        decoded_transaction(m) && bytes == #[trigger] encode::transaction_info_bytes(m)
}

/// Whether the bytes are an encoded account.
pub open spec fn encoded_account(bytes: Seq<u8>) -> bool {
    exists|m: AccountInfoView| bytes == #[trigger] encode::account_info_bytes(m)
}

/// Whether the bytes are an encoded entry.
pub open spec fn encoded_entry(bytes: Seq<u8>) -> bool {
    exists|m: EntryView| bytes == #[trigger] encode::entry_bytes(m)
}

/// Whether the block is made of metadata that was decoded, and of encoded transactions, accounts and
/// entries.
pub open spec fn encoded_block(m: BlockView) -> bool {
    &&& decoded_block_meta(m.meta)
    &&& forall|i: int|
        0 <= i < m.transactions.len() ==> encoded_transaction(#[trigger] m.transactions[i])
    &&& forall|i: int| 0 <= i < m.accounts.len() ==> encoded_account(#[trigger] m.accounts[i])
    &&& forall|i: int| 0 <= i < m.entries.len() ==> encoded_entry(#[trigger] m.entries[i])
}

/// The transactions, encoded.
pub open spec fn transactions_bytes(ms: Seq<TransactionInfoView>) -> Seq<Seq<u8>> {
    ms.map_values(|m: TransactionInfoView| encode::transaction_info_bytes(m))
}

/// Whether each of the transactions was decoded.
pub open spec fn decoded_transactions(ms: Seq<TransactionInfoView>) -> bool {
    forall|i: int| 0 <= i < ms.len() ==> decoded_transaction(#[trigger] ms[i])
}

/// The accounts, encoded.
pub open spec fn accounts_bytes(ms: Seq<AccountInfoView>) -> Seq<Seq<u8>> {
    ms.map_values(|m: AccountInfoView| encode::account_info_bytes(m))
}

/// The entries, encoded.
pub open spec fn entries_bytes(ms: Seq<EntryView>) -> Seq<Seq<u8>> {
    ms.map_values(|m: EntryView| encode::entry_bytes(m))
}

/// A block update.
pub open spec fn block_view_bytes(m: BlockView) -> Seq<u8> {
    encode::block_bytes(m.meta, m.transactions, m.updated_account_count, m.accounts, m.entries)
}

/// A transaction status update.
pub open spec fn status_bytes(m: TransactionStatusView) -> Seq<u8> {
    encode::transaction_status_bytes(m.slot, m.signature, m.is_vote, m.index, m.err)
}

/// Whether the payload is an encoded update with the tag.
pub open spec fn encoded_update(tag: u32, payload: Seq<u8>) -> bool {
    ||| tag == 2 && exists|m: AccountView| payload == #[trigger] encode::account_bytes(m)
    ||| tag == 3 && exists|m: SlotView| payload == #[trigger] encode::slot_bytes(m)
    ||| tag == 4 && exists|info: Seq<u8>, slot: u64|
        encoded_transaction(info) && payload == #[trigger] encode::transaction_bytes(info, slot)
    ||| tag == 5 && exists|m: BlockView|
        encoded_block(m) && payload == #[trigger] block_view_bytes(m)
    ||| tag == 7 && exists|m: BlockMetaView|
        decoded_block_meta(m) && payload == #[trigger] encode::block_meta_bytes(m)
    ||| tag == 8 && encoded_entry(payload)
    ||| tag == 10 && exists|m: TransactionStatusView| payload == #[trigger] status_bytes(m)
}

// ---------------------------------------------------------------------------------------------
// Decoding with prost
// ---------------------------------------------------------------------------------------------

/// The fields of a transaction error: the last of the encoded errors counts.
pub struct TransactionErrorFields;

impl FieldStep for TransactionErrorFields {
    type M = Seq<u8>;

    open spec fn step(m: Seq<u8>, tag: u32, wire_type: WireType, rest: Seq<u8>, at: nat) -> Result<
        (Seq<u8>, nat),
        Failure,
    > {
        if tag == 1 {
            if wire_type != WireType::LengthDelimited {
                Err(error::failure(DecodeErrorKind::UnexpectedWireType))
            } else {
                match decode::delimited_at(rest, 0) {
                    Ok((sp, n)) => Ok((rest.subrange(sp.start as int, sp.end as int), n)),
                    Err(kind) => Err(error::failure(kind)),
                }
            }
        } else {
            match decode::skipped(wire_type, tag, rest) {
                Ok(n) => Ok((m, n)),
                Err(e) => Err(e),
            }
        }
    }

    proof fn lemma_step_bounds(m: Seq<u8>, tag: u32, wire_type: WireType, rest: Seq<u8>, at: nat) {
        decode::lemma_value_bounds(wire_type, tag, rest, 0);
    }
}

/// `TransactionError::decode` of `yellowstone-grpc-proto`: the encoded error of a message with that
/// one field, or an error where the bytes are no message or give that field another wire type.
#[verifier::external_body]
pub(crate) fn decode_transaction_error(buf: &[u8]) -> (r: Result<
    TransactionError,
    prost::DecodeError,
>)
    ensures
        match fields::all_fields::<TransactionErrorFields>(Seq::empty(), buf@) {
            Ok(err) => r is Ok && r->Ok_0@ == err,
            Err(_) => r is Err,
        },
{
    let error = confirmed_block::TransactionError::decode(buf)?;
    Ok(TransactionError { err: error.err })
}

/// What `SubscribeUpdateBlockMeta::decode` of `yellowstone-grpc-proto` makes of the bytes.
pub uninterp spec fn prost_block_meta(bytes: Seq<u8>) -> Option<BlockMetaView>;

/// `SubscribeUpdateBlockMeta::decode` of `yellowstone-grpc-proto`: the metadata of a block, the
/// rewards encoded again, or an error. Metadata that was decoded is read back once it is encoded. What
/// becomes of other bytes is left to that crate.
#[verifier::external_body]
pub(crate) fn decode_block_meta(buf: &[u8]) -> (r: Result<
    SubscribeUpdateBlockMeta,
    prost::DecodeError,
>)
    ensures
        match prost_block_meta(buf@) {
            Some(meta) => r is Ok && r->Ok_0@ == meta,
            None => r is Err,
        },
        forall|m: BlockMetaView|
            decoded_block_meta(m) && buf@ == #[trigger] encode::block_meta_bytes(m) ==> r is Ok
                && r->Ok_0@ == m,
{
    let m = proto::SubscribeUpdateBlockMeta::decode(buf)?;
    Ok(SubscribeUpdateBlockMeta {
        slot: m.slot,
        blockhash: m.blockhash,
        rewards: m.rewards.map(|rewards| rewards.encode_to_vec()),
        block_time: m.block_time.map(|time| time.timestamp),
        block_height: m.block_height.map(|height| height.block_height),
        parent_slot: m.parent_slot,
        parent_blockhash: m.parent_blockhash,
        executed_transaction_count: m.executed_transaction_count,
        entries_count: m.entries_count,
    })
}

/// What `SubscribeUpdate::decode` of `yellowstone-grpc-proto` makes of the bytes: the names of the
/// filters, the update with its tag, encoded again, and the time.
pub uninterp spec fn prost_update(bytes: Seq<u8>) -> Option<
    (Seq<Seq<char>>, Option<(u32, Seq<u8>)>, Option<Timestamp>),
>;

/// The field that holds the update, if there is one.
pub open spec fn oneof_bytes(update: Option<(u32, Seq<u8>)>) -> Seq<u8> {
    match update {
        Some((tag, payload)) => wire::bytes_field(tag, payload),
        None => Seq::empty(),
    }
}

/// Whether the names of filters, the field that holds an update and the time are what `parts` say.
pub open spec fn is_envelope(
    r: (Vec<String>, Vec<u8>, Option<Timestamp>),
    parts: (Seq<Seq<char>>, Option<(u32, Seq<u8>)>, Option<Timestamp>),
) -> bool {
    &&& text_each(r.0@) == parts.0
    &&& r.1@ == oneof_bytes(parts.1)
    &&& r.2 == parts.2
    &&& parts.1 matches Some((tag, _)) ==> 2 <= tag <= 10
}

/// `SubscribeUpdate::decode` of `yellowstone-grpc-proto`: the names of the filters, the field that holds
/// the update, encoded again with `UpdateOneof::encode`, and the time, or an error. The tag of that
/// field is one of those of an update. An encoded update is read back; of an envelope with the time and
/// a field that is none of an update, there is the time. Where bytes can be decoded and the limited parser
/// finds an update in them, which is then the last one and not of the kind of the one before it, the bytes
/// of that update are decoded to the same update in another envelope with the same time. What becomes of
/// other bytes is left to that crate.
#[verifier::external_body]
pub(crate) fn decode_update(buf: &[u8]) -> (r: Result<
    (Vec<String>, Vec<u8>, Option<Timestamp>),
    prost::DecodeError,
>)
    ensures
        match prost_update(buf@) {
            Some(parts) => r is Ok && is_envelope(r->Ok_0, parts),
            None => r is Err,
        },
        forall|filters: Seq<Seq<char>>, tag: u32, payload: Seq<u8>, ts: Timestamp|
            encoded_update(tag, payload) && buf@ == #[trigger] encode::envelope_bytes(
                filters,
                tag,
                payload,
                ts,
            ) ==> {
                &&& r is Ok
                &&& text_each(r->Ok_0.0@) == filters
                &&& r->Ok_0.1@ == wire::bytes_field(tag, payload)
                &&& r->Ok_0.2 == Some(ts)
            },
        forall|tag: u32, payload: Seq<u8>, ts: Timestamp|
            100 <= tag <= 105 && buf@ == #[trigger] encode::other_envelope(tag, payload, ts) ==> {
                &&& r is Ok
                &&& r->Ok_0.0@.len() == 0
                &&& r->Ok_0.1@.len() == 0
                &&& r->Ok_0.2 == Some(ts)
            },
        forall|data: Seq<u8>, filters: Seq<Seq<char>>|
            #![trigger prost_update(data), message::passed_on(data, filters)]
            message::limited_envelope(data) is Ok && prost_update(data) is Some && buf@
                == message::passed_on(data, filters) ==> {
                let (_, update, created_at) = prost_update(data)->Some_0;
                r is Ok && is_envelope(r->Ok_0, (filters, update, created_at))
            },
{
    let m = proto::SubscribeUpdate::decode(buf)?;
    let mut update = Vec::new();
    if let Some(oneof) = &m.update_oneof {
        oneof.encode(&mut update);
    }
    let created_at = m.created_at.map(|ts| Timestamp { seconds: ts.seconds, nanos: ts.nanos });
    Ok((m.filters, update, created_at))
}

/// What `SubscribeUpdateSlot::decode` of `yellowstone-grpc-proto` makes of the bytes.
pub uninterp spec fn prost_slot(bytes: Seq<u8>) -> Option<SlotView>;

/// `SubscribeUpdateSlot::decode` of `yellowstone-grpc-proto`: a slot update, or an error. An encoded
/// slot update is read back. What becomes of other bytes is left to that crate.
#[verifier::external_body]
pub(crate) fn decode_slot(buf: &[u8]) -> (r: Result<SubscribeUpdateSlot, prost::DecodeError>)
    ensures
        match prost_slot(buf@) {
            Some(m) => r is Ok && r->Ok_0@ == m,
            None => r is Err,
        },
        forall|m: SlotView|
            buf@ == #[trigger] encode::slot_bytes(m) ==> r is Ok && r->Ok_0@ == m,
{
    let m = proto::SubscribeUpdateSlot::decode(buf)?;
    Ok(SubscribeUpdateSlot {
        slot: m.slot,
        parent: m.parent,
        status: m.status,
        dead_error: m.dead_error,
    })
}

/// What `SubscribeUpdateAccount::decode` of `yellowstone-grpc-proto` makes of the bytes: the
/// account, encoded again, the slot, and whether the update is one of those at startup.
pub uninterp spec fn prost_account(bytes: Seq<u8>) -> Option<(Option<Seq<u8>>, u64, bool)>;

/// `SubscribeUpdateAccount::decode` of `yellowstone-grpc-proto`: the account, encoded again, the slot,
/// and whether the update is one of those at startup, or an error. An encoded account update is
/// read back. What becomes of other bytes is left to that crate.
#[verifier::external_body]
pub(crate) fn decode_account(buf: &[u8]) -> (r: Result<
    (Option<Vec<u8>>, u64, bool),
    prost::DecodeError,
>)
    ensures
        match prost_account(buf@) {
            Some((info, slot, is_startup)) => {
                &&& r is Ok
                &&& bytes_opt(r->Ok_0.0) == info
                &&& r->Ok_0.1 == slot
                &&& r->Ok_0.2 == is_startup
            },
            None => r is Err,
        },
        forall|m: AccountView|
            buf@ == #[trigger] encode::account_bytes(m) ==> {
                &&& r is Ok
                &&& bytes_opt(r->Ok_0.0) == match m.account {
                    Some(a) => Some(encode::account_info_bytes(a)),
                    None => None,
                }
                &&& r->Ok_0.1 == m.slot
                &&& r->Ok_0.2 == m.is_startup
            },
{
    let m = proto::SubscribeUpdateAccount::decode(buf)?;
    let info = m.account.map(|info| info.encode_to_vec());
    Ok((info, m.slot, m.is_startup))
}

/// What `SubscribeUpdateAccountInfo::decode` of `yellowstone-grpc-proto` makes of the bytes.
pub uninterp spec fn prost_account_info(bytes: Seq<u8>) -> Option<AccountInfoView>;

/// `SubscribeUpdateAccountInfo::decode` of `yellowstone-grpc-proto`: an account, or an error. An
/// encoded account is read back. What becomes of other bytes is left to that crate.
#[verifier::external_body]
pub(crate) fn decode_account_info(buf: &[u8]) -> (r: Result<
    SubscribeUpdateAccountInfo,
    prost::DecodeError,
>)
    ensures
        match prost_account_info(buf@) {
            Some(m) => r is Ok && r->Ok_0@ == m,
            None => r is Err,
        },
        forall|m: AccountInfoView|
            buf@ == #[trigger] encode::account_info_bytes(m) ==> r is Ok && r->Ok_0@ == m,
{
    let m = proto::SubscribeUpdateAccountInfo::decode(buf)?;
    Ok(SubscribeUpdateAccountInfo {
        pubkey: m.pubkey,
        lamports: m.lamports,
        owner: m.owner,
        executable: m.executable,
        rent_epoch: m.rent_epoch,
        data: m.data,
        write_version: m.write_version,
        txn_signature: m.txn_signature,
    })
}

/// What `SubscribeUpdateTransaction::decode` of `yellowstone-grpc-proto` makes of the bytes: the
/// transaction, encoded again, and the slot.
pub uninterp spec fn prost_transaction(bytes: Seq<u8>) -> Option<(Option<Seq<u8>>, u64)>;

/// `SubscribeUpdateTransaction::decode` of `yellowstone-grpc-proto`: the transaction, encoded again,
/// and the slot, or an error. A transaction that was decoded is read back once it is encoded. What
/// becomes of other bytes is left to that crate.
#[verifier::external_body]
pub(crate) fn decode_transaction(buf: &[u8]) -> (r: Result<
    (Option<Vec<u8>>, u64),
    prost::DecodeError,
>)
    ensures
        match prost_transaction(buf@) {
            Some((info, slot)) => {
                &&& r is Ok
                &&& bytes_opt(r->Ok_0.0) == info
                &&& r->Ok_0.1 == slot
            },
            None => r is Err,
        },
        forall|info: Seq<u8>, slot: u64|
            encoded_transaction(info) && buf@ == #[trigger] encode::transaction_bytes(info, slot)
                ==> {
                &&& r is Ok
                &&& bytes_opt(r->Ok_0.0) == Some(info)
                &&& r->Ok_0.1 == slot
            },
{
    let m = proto::SubscribeUpdateTransaction::decode(buf)?;
    Ok((m.transaction.map(|info| info.encode_to_vec()), m.slot))
}

/// Whether the fields of an encoded body, wherever they lie, add the keys to those of a transaction, and
/// nothing else.
pub open spec fn adds_keys(encoded: Seq<u8>, keys: Seq<Seq<u8>>) -> bool {
    forall|m: TransactionInfoModel, at: nat|
        #![trigger round_trip::leads::<TransactionFields>(m, at, encoded, with_keys(m, keys))]
        round_trip::leads::<TransactionFields>(m, at, encoded, with_keys(m, keys))
}

/// The transaction with the keys as well.
pub open spec fn with_keys(m: TransactionInfoModel, keys: Seq<Seq<u8>>) -> TransactionInfoModel {
    TransactionInfoModel { account_keys: m.account_keys.union(keys.to_set()), ..m }
}

/// The transaction with the keys, and with the error at the place in metadata that lies at `at`.
pub open spec fn with_meta(
    m: TransactionInfoModel,
    keys: Seq<Seq<u8>>,
    error: Option<Span>,
    at: nat,
) -> TransactionInfoModel {
    TransactionInfoModel {
        err: match error {
            Some(sp) => Some(Span { start: at + sp.start, end: at + sp.end }),
            None => m.err,
        },
        ..with_keys(m, keys)
    }
}

/// Whether the place in the encoded metadata is that of the error, where there is one.
pub open spec fn holds_error(encoded: Seq<u8>, error: Option<Span>, err: Option<Seq<u8>>) -> bool {
    match (error, err) {
        (Some(sp), Some(err)) => {
            &&& sp.start <= sp.end <= encoded.len()
            &&& fields::all_fields::<TransactionErrorFields>(
                Seq::empty(),
                encoded.subrange(sp.start as int, sp.end as int),
            ) == Ok::<Seq<u8>, Failure>(err)
        },
        (None, None) => true,
        _ => false,
    }
}

/// Whether the fields of encoded metadata, wherever they lie, add the keys to those of a transaction and
/// set the error, where there is one, and nothing else.
pub open spec fn adds_meta(encoded: Seq<u8>, keys: Seq<Seq<u8>>, err: Option<Seq<u8>>) -> bool {
    exists|error: Option<Span>| #[trigger]
        holds_error(encoded, error, err) && forall|m: TransactionInfoModel, at: nat|
            #![trigger round_trip::leads::<TransactionMetaFields>(
                m,
                at,
                encoded,
                with_meta(m, keys, error, at),
            )]
            round_trip::leads::<TransactionMetaFields>(
                m,
                at,
                encoded,
                with_meta(m, keys, error, at),
            )
}

/// The static keys of a transaction.
pub open spec fn static_keys(t: TransactionBodyView) -> Seq<Seq<u8>> {
    match t.account_keys {
        Some(keys) => keys,
        None => Seq::empty(),
    }
}

/// The loaded keys of a transaction.
pub open spec fn loaded_keys(meta: TransactionMetaView) -> Seq<Seq<u8>> {
    meta.loaded_writable_addresses + meta.loaded_readonly_addresses
}

/// Whether the keys and the error of a transaction, where the keys have 32 bytes, can be read from its
/// encoded body and its encoded metadata.
pub open spec fn legible(m: TransactionInfoView) -> bool {
    &&& m.transaction matches Some(t) ==> parser::all_keys(static_keys(t)) ==> adds_keys(
        t.encoded,
        static_keys(t),
    )
    &&& m.meta matches Some(meta) ==> parser::all_keys(loaded_keys(meta)) ==> adds_meta(
        meta.encoded,
        loaded_keys(meta),
        meta.err,
    )
}

/// What `SubscribeUpdateTransactionInfo::decode` of `yellowstone-grpc-proto` makes of the bytes.
pub uninterp spec fn prost_transaction_info(bytes: Seq<u8>) -> Option<TransactionInfoView>;

/// `SubscribeUpdateTransactionInfo::decode` of `yellowstone-grpc-proto`: a transaction, its body and
/// its metadata encoded again, or an error. A transaction that was decoded is read back once it is
/// encoded. Its body is encoded with its keys, and its metadata with its error and with the loaded keys.
/// What becomes of other bytes is left to that crate.
#[verifier::external_body]
pub(crate) fn decode_transaction_info(buf: &[u8]) -> (r: Result<
    SubscribeUpdateTransactionInfo,
    prost::DecodeError,
>)
    ensures
        match prost_transaction_info(buf@) {
            Some(m) => r is Ok && r->Ok_0@ == m,
            None => r is Err,
        },
        forall|m: TransactionInfoView|
            decoded_transaction(m) && buf@ == #[trigger] encode::transaction_info_bytes(m)
                ==> r is Ok && r->Ok_0@ == m,
        r is Ok ==> legible(r->Ok_0@),
{
    let m = proto::SubscribeUpdateTransactionInfo::decode(buf)?;
    let transaction = m.transaction.map(|t| Transaction {
        encoded: t.encode_to_vec(),
        account_keys: t.message.map(|message| message.account_keys),
    });
    let meta = m.meta.map(|meta| TransactionStatusMeta {
        encoded: meta.encode_to_vec(),
        err: meta.err.map(|e| TransactionError { err: e.err }),
        loaded_writable_addresses: meta.loaded_writable_addresses,
        loaded_readonly_addresses: meta.loaded_readonly_addresses,
    });
    let (signature, is_vote, index) = (m.signature, m.is_vote, m.index);
    Ok(SubscribeUpdateTransactionInfo { signature, is_vote, transaction, meta, index })
}

/// What `SubscribeUpdateTransactionStatus::decode` of `yellowstone-grpc-proto` makes of the bytes.
pub uninterp spec fn prost_transaction_status(bytes: Seq<u8>) -> Option<TransactionStatusView>;

/// `SubscribeUpdateTransactionStatus::decode` of `yellowstone-grpc-proto`: how a transaction went, or an
/// error. An encoded one is read back. What becomes of other bytes is left to that crate.
#[verifier::external_body]
pub(crate) fn decode_transaction_status(buf: &[u8]) -> (r: Result<
    SubscribeUpdateTransactionStatus,
    prost::DecodeError,
>)
    ensures
        match prost_transaction_status(buf@) {
            Some(m) => r is Ok && r->Ok_0@ == m,
            None => r is Err,
        },
        forall|m: TransactionStatusView|
            buf@ == #[trigger] status_bytes(m) ==> r is Ok && r->Ok_0@ == m,
{
    let m = proto::SubscribeUpdateTransactionStatus::decode(buf)?;
    Ok(SubscribeUpdateTransactionStatus {
        slot: m.slot,
        signature: m.signature,
        is_vote: m.is_vote,
        index: m.index,
        err: m.err.map(|e| TransactionError { err: e.err }),
    })
}

/// What `SubscribeUpdateEntry::decode` of `yellowstone-grpc-proto` makes of the bytes.
pub uninterp spec fn prost_entry(bytes: Seq<u8>) -> Option<EntryView>;

/// `SubscribeUpdateEntry::decode` of `yellowstone-grpc-proto`: an entry, or an error. An encoded entry
/// is read back. What becomes of other bytes is left to that crate.
#[verifier::external_body]
pub(crate) fn decode_entry(buf: &[u8]) -> (r: Result<SubscribeUpdateEntry, prost::DecodeError>)
    ensures
        match prost_entry(buf@) {
            Some(m) => r is Ok && r->Ok_0@ == m,
            None => r is Err,
        },
        forall|m: EntryView|
            buf@ == #[trigger] encode::entry_bytes(m) ==> r is Ok && r->Ok_0@ == m,
{
    let m = proto::SubscribeUpdateEntry::decode(buf)?;
    Ok(SubscribeUpdateEntry {
        slot: m.slot,
        index: m.index,
        num_hashes: m.num_hashes,
        hash: m.hash,
        executed_transaction_count: m.executed_transaction_count,
        starting_transaction_index: m.starting_transaction_index,
    })
}

/// What `SubscribeUpdateBlock::decode` of `yellowstone-grpc-proto` makes of the bytes.
pub uninterp spec fn prost_block(bytes: Seq<u8>) -> Option<BlockView>;

/// `SubscribeUpdateBlock::decode` of `yellowstone-grpc-proto`: the metadata of a block, and its
/// transactions, accounts and entries, each of them and the rewards encoded again, or an error. A block
/// of encoded parts is read back. What becomes of other bytes is left to that crate.
#[verifier::external_body]
pub(crate) fn decode_block(buf: &[u8]) -> (r: Result<SubscribeUpdateBlock, prost::DecodeError>)
    ensures
        match prost_block(buf@) {
            Some(m) => r is Ok && r->Ok_0@ == m,
            None => r is Err,
        },
        forall|m: BlockView|
            encoded_block(m) && buf@ == #[trigger] block_view_bytes(m) ==> r is Ok && r->Ok_0@ == m,
{
    let m = proto::SubscribeUpdateBlock::decode(buf)?;
    let transactions = m.transactions.iter().map(Message::encode_to_vec).collect();
    let accounts = m.accounts.iter().map(Message::encode_to_vec).collect();
    let entries = m.entries.iter().map(Message::encode_to_vec).collect();
    let updated_account_count = m.updated_account_count;
    let meta = SubscribeUpdateBlockMeta {
        slot: m.slot, blockhash: m.blockhash, entries_count: m.entries_count,
        rewards: m.rewards.map(|rewards| rewards.encode_to_vec()),
        block_time: m.block_time.map(|time| time.timestamp),
        block_height: m.block_height.map(|height| height.block_height),
        parent_slot: m.parent_slot, parent_blockhash: m.parent_blockhash,
        executed_transaction_count: m.executed_transaction_count,
    };
    Ok(SubscribeUpdateBlock { meta, transactions, updated_account_count, accounts, entries })
}

} // verus!
