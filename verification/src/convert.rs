//! Decoded updates encoded again, to see whether they were encoded alike.
use vstd::prelude::*;
use vstd::string::StringExecFns;

use crate::codec;
use crate::codec::Timestamp;
use crate::copy;
use crate::encode;
use crate::error;
use crate::error::{DecodeErrorKind, WireError};
use crate::filter;
use crate::geyser;
use crate::geyser::{
    AccountView, BlockMetaView, SlotStatus, SlotView, SubscribeUpdateBlockMeta,
    SubscribeUpdateTransactionInfo, Transaction, TransactionBodyView, TransactionInfoView,
    TransactionMetaView, TransactionStatusMeta,
};
use crate::plugin;
use crate::plugin::{
    LoadedAddresses, ReplicaContactInfo, ReplicaDeshredTransactionInfo,
    ReplicaDeshredUpdateParentInfo, ReplicaEntryUpdateParentInfo,
};
use crate::protobuf;
use crate::protobuf::{GeyserSlotStatus, ProtobufEncoder, ProtobufMessage};
use crate::pubkey::{Pubkey, PUBKEY_BYTES, SIGNATURE_BYTES};
use crate::readings::{
    Readings, TransactionView, TransactionWithStatusMeta, VersionedTransactionWithStatusMeta,
    VersionedView,
};
use crate::richat;
use crate::richat::{
    DeshredInfoView, NodeView, RichatView, SubscribeUpdateContactInfoNode,
    SubscribeUpdateDeshredTransactionInfo, UpdateOneofRichat,
};
use crate::stream::{StreamUpdate, StreamView, UpdateOneof, UpdateView};
use crate::text;
use crate::told;
use crate::wire;

verus! {

/// Why an update cannot be encoded again.
#[derive(Debug, Clone, Copy, PartialEq, Eq, Structural)]
pub enum ConvertError {
    /// A signature is no 64 bytes long.
    InvalidSignature,
    /// The status of a slot is none.
    InvalidStatus(i32),
    /// There is no transaction.
    NoTransaction,
    /// There is nothing on how the transaction went.
    NoTransactionMeta,
    /// There are no rewards.
    NoRewards,
    /// An address is no 32 bytes long.
    InvalidAddress,
    /// The types of the validator make nothing of a transaction.
    InvalidTransaction,
    /// The types of the validator make nothing of the rewards.
    InvalidRewards,
    /// A number is too large.
    InvalidNumber,
    /// The text of a socket is no address.
    InvalidSocket,
    /// A hash is no 32 bytes long.
    InvalidHash,
    /// The block footer cannot be read.
    InvalidBlockFooter,
}

/// The encoded update, where there is one.
pub type RawUpdate = Result<Option<Seq<u8>>, ConvertError>;

/// An encoded update, with the time.
pub open spec fn raw_bytes(tag: u32, payload: Seq<u8>, created_at: Timestamp) -> RawUpdate {
    Ok(Some(protobuf::update_bytes(tag, payload, created_at)))
}

/// The slot update as a validator would tell of it: only a dead slot has an error.
pub open spec fn raw_slot(m: SlotView) -> Option<SlotView> {
    match geyser::slot_status_of(m.status) {
        Some(status) => Some(
            SlotView {
                slot: m.slot,
                parent: m.parent,
                status: m.status,
                dead_error: if status == SlotStatus::SlotDead {
                    match m.dead_error {
                        Some(error) => Some(error),
                        None => Some(Seq::empty()),
                    }
                } else {
                    None
                },
            },
        ),
        None => None,
    }
}

/// Whether the signature, if there is one, is 64 bytes long.
pub open spec fn signed(signature: Option<Seq<u8>>) -> bool {
    signature matches Some(s) ==> s.len() == 64
}

/// The transaction of the validator's own type, as it is told of: the signature, whether it is a vote, and
/// the index are those of `info`.
pub open spec fn retold(info: TransactionInfoView, t: VersionedView) -> TransactionInfoView {
    TransactionInfoView {
        transaction: Some(TransactionBodyView { account_keys: None, encoded: t.transaction }),
        meta: Some(
            TransactionMetaView {
                err: None,
                loaded_writable_addresses: Seq::empty(),
                loaded_readonly_addresses: Seq::empty(),
                encoded: t.meta,
            },
        ),
        ..info
    }
}

/// The transaction of the validator's own type, as it is told of.
fn retell(
    info: &SubscribeUpdateTransactionInfo,
    t: VersionedTransactionWithStatusMeta,
) -> (r: SubscribeUpdateTransactionInfo)
    ensures
        r@ == retold(info@, t@),
{
    let r = SubscribeUpdateTransactionInfo {
        signature: copy::copy_bytes(&info.signature),
        is_vote: info.is_vote,
        transaction: Some(Transaction { account_keys: None, encoded: t.transaction }),
        meta: Some(
            TransactionStatusMeta {
                err: None,
                loaded_writable_addresses: Vec::new(),
                loaded_readonly_addresses: Vec::new(),
                encoded: t.meta,
            },
        ),
        index: info.index,
    };
    assert(geyser::bytes_each(r.meta->Some_0.loaded_writable_addresses@) =~= Seq::empty());
    assert(geyser::bytes_each(r.meta->Some_0.loaded_readonly_addresses@) =~= Seq::empty());
    r
}

/// The transaction as a validator would tell of it, or why it would not.
pub open spec fn raw_transaction(info: TransactionInfoView, readings: Readings) -> Result<
    TransactionInfoView,
    ConvertError,
> {
    match readings.transaction(info) {
        Err(_) => Err(ConvertError::InvalidTransaction),
        Ok(TransactionView::MissingMetadata(_)) => Err(ConvertError::NoTransactionMeta),
        Ok(TransactionView::Complete(t)) => if info.signature.len() != 64 {
            Err(ConvertError::InvalidSignature)
        } else {
            Ok(retold(info, t))
        },
    }
}

/// The update of the stream, encoded again as a validator would tell of it. What the types of the
/// validator make of transactions and rewards is in the readings.
pub open spec fn raw_geyser(
    update: Option<UpdateView>,
    created_at: Option<Timestamp>,
    readings: Readings,
) -> RawUpdate {
    match (update, created_at) {
        (_, None) => Ok(None),
        (Some(UpdateView::Account(m)), Some(ts)) => match m.account {
            Some(info) => if signed(info.txn_signature) {
                raw_bytes(
                    2,
                    encode::account_bytes(
                        AccountView { account: Some(info), slot: m.slot, is_startup: false },
                    ),
                    ts,
                )
            } else {
                Err(ConvertError::InvalidSignature)
            },
            None => Ok(None),
        },
        (Some(UpdateView::Slot(m)), Some(ts)) => match raw_slot(m) {
            Some(m) => raw_bytes(3, encode::slot_bytes(m), ts),
            None => Err(ConvertError::InvalidStatus(m.status)),
        },
        (Some(UpdateView::Transaction { transaction, slot }), Some(ts)) => match transaction {
            Some(info) => match raw_transaction(info, readings) {
                Err(e) => Err(e),
                Ok(told) => raw_bytes(
                    4,
                    encode::transaction_bytes(encode::transaction_info_bytes(told), slot),
                    ts,
                ),
            },
            None => Ok(None),
        },
        (Some(UpdateView::Entry(m)), Some(ts)) => raw_bytes(8, encode::entry_bytes(m), ts),
        (Some(UpdateView::BlockMeta(m)), Some(ts)) => match m.rewards {
            None => Err(ConvertError::NoRewards),
            Some(rewards) => match readings.reward_list(rewards) {
                None => Err(ConvertError::InvalidRewards),
                Some(told) => raw_bytes(
                    7,
                    encode::block_meta_bytes(BlockMetaView { rewards: Some(told), ..m }),
                    ts,
                ),
            },
        },
        _ => Ok(None),
    }
}

/// Whether there is room for the encoded update.
pub open spec fn has_room(raw: RawUpdate) -> bool {
    raw matches Ok(Some(bytes)) ==> bytes.len() <= usize::MAX
}

/// Whether `r` is what `raw` says.
pub open spec fn is_raw(r: Result<Option<Vec<u8>>, ConvertError>, raw: RawUpdate) -> bool {
    match raw {
        Ok(bytes) => r is Ok && geyser::bytes_opt(r->Ok_0) == bytes,
        Err(e) => r is Err && r->Err_0 == e,
    }
}

/// The update of the stream, encoded again as a validator would tell of it. What a validator does not
/// tell of is not encoded.
pub fn convert_prost_to_raw_geyser(
    update_oneof: &Option<UpdateOneof>,
    created_at: Option<Timestamp>,
    readings: &Readings,
) -> (r: Result<Option<Vec<u8>>, ConvertError>)
    requires
        has_room(
            raw_geyser(
                match update_oneof {
                    Some(m) => Some(m@),
                    None => None,
                },
                created_at,
                *readings,
            ),
        ),
    ensures
        is_raw(
            r,
            raw_geyser(
                match update_oneof {
                    Some(m) => Some(m@),
                    None => None,
                },
                created_at,
                *readings,
            ),
        ),
{
    let created_at = match created_at {
        Some(created_at) => created_at,
        None => return Ok(None),
    };
    let update = match update_oneof {
        Some(update) => update,
        None => return Ok(None),
    };
    match update {
        UpdateOneof::Account(m) => match &m.account {
            Some(account) => {
                if let Some(signature) = &account.txn_signature {
                    if signature.len() != SIGNATURE_BYTES {
                        return Err(ConvertError::InvalidSignature);
                    }
                }
                let msg = ProtobufMessage::Account { slot: m.slot, account };
                Ok(Some(msg.encode_with_timestamp(ProtobufEncoder::Raw, created_at)))
            },
            None => Ok(None),
        },
        UpdateOneof::Slot(m) => {
            let status = match SlotStatus::from_number(m.status) {
                Some(SlotStatus::SlotProcessed) => GeyserSlotStatus::Processed,
                Some(SlotStatus::SlotConfirmed) => GeyserSlotStatus::Confirmed,
                Some(SlotStatus::SlotFinalized) => GeyserSlotStatus::Rooted,
                Some(SlotStatus::SlotFirstShredReceived) => GeyserSlotStatus::FirstShredReceived,
                Some(SlotStatus::SlotCompleted) => GeyserSlotStatus::Completed,
                Some(SlotStatus::SlotCreatedBank) => GeyserSlotStatus::CreatedBank,
                Some(SlotStatus::SlotDead) => GeyserSlotStatus::Dead(
                    match &m.dead_error {
                        Some(error) => copy::copy_text(error),
                        None => String::new(),
                    },
                ),
                None => return Err(ConvertError::InvalidStatus(m.status)),
            };
            let msg = ProtobufMessage::Slot { slot: m.slot, parent: m.parent, status: &status };
            assert(msg.encoded(created_at) == protobuf::update_bytes(
                3,
                encode::slot_bytes(raw_slot(m@)->Some_0),
                created_at,
            ));
            Ok(Some(msg.encode_with_timestamp(ProtobufEncoder::Raw, created_at)))
        },
        UpdateOneof::Transaction(m) => match &m.transaction {
            Some(transaction) => {
                let versioned = match readings.read_transaction(transaction) {
                    Ok(TransactionWithStatusMeta::Complete(versioned)) => versioned,
                    Ok(TransactionWithStatusMeta::MissingMetadata(_)) => {
                        return Err(ConvertError::NoTransactionMeta);
                    },
                    Err(_) => return Err(ConvertError::InvalidTransaction),
                };
                if transaction.signature.len() != SIGNATURE_BYTES {
                    return Err(ConvertError::InvalidSignature);
                }
                let told = retell(transaction, versioned);
                let msg = ProtobufMessage::Transaction { slot: m.slot, transaction: &told };
                Ok(Some(msg.encode_with_timestamp(ProtobufEncoder::Raw, created_at)))
            },
            None => Ok(None),
        },
        UpdateOneof::Entry(entry) => {
            let msg = ProtobufMessage::Entry { entry };
            Ok(Some(msg.encode_with_timestamp(ProtobufEncoder::Raw, created_at)))
        },
        UpdateOneof::BlockMeta(blockinfo) => {
            let rewards = match &blockinfo.rewards {
                Some(rewards) => match readings.read_reward_list(rewards.as_slice()) {
                    Some(told) => told,
                    None => return Err(ConvertError::InvalidRewards),
                },
                None => return Err(ConvertError::NoRewards),
            };
            let told = SubscribeUpdateBlockMeta { rewards: Some(rewards), ..blockinfo.clone() };
            let msg = ProtobufMessage::BlockMeta { blockinfo: &told };
            Ok(Some(msg.encode_with_timestamp(ProtobufEncoder::Raw, created_at)))
        },
        _ => Ok(None),
    }
}

/// The fields of a node.
pub open spec fn node_bytes(m: NodeView) -> Seq<u8> {
    (wire::bytes_field_opt(1, m.pubkey) + wire::varint_field_opt(2, m.wallclock)
        + wire::varint_field_opt(3, m.outset) + wire::varint_field_opt(4, m.shred_version as u64)
        + wire::varint_field_opt(5, m.version_major as u64) + wire::varint_field_opt(
        6,
        m.version_minor as u64,
    ) + wire::varint_field_opt(7, m.version_patch as u64) + wire::varint_field_opt(
        8,
        m.version_commit as u64,
    ) + wire::varint_field_opt(9, m.version_feature_set as u64) + wire::varint_field_opt(
        10,
        m.version_client_id as u64,
    )) + (plugin::socket_field(11, m.gossip) + plugin::socket_field(12, m.tpu_quic)
        + plugin::socket_field(13, m.tpu_forwards_quic) + plugin::socket_field(14, m.tpu_vote_udp)
        + plugin::socket_field(15, m.tpu_vote_quic) + plugin::socket_field(16, m.tvu_udp)
        + plugin::socket_field(17, m.tvu_quic) + plugin::socket_field(18, m.serve_repair_udp)
        + plugin::socket_field(19, m.serve_repair_quic) + plugin::socket_field(20, m.rpc)
        + plugin::socket_field(21, m.rpc_pubsub) + plugin::socket_field(22, m.alpenglow))
}

/// Whether the text of a socket, if there is one, is an address.
pub open spec fn is_address(text: Option<Seq<char>>, readings: Readings) -> bool {
    text matches Some(text) ==> readings.socket(text) is Some
}

/// The address that the text of a socket is, if there is one.
pub open spec fn address(text: Option<Seq<char>>, readings: Readings) -> Option<Seq<char>> {
    match text {
        Some(text) => readings.socket(text),
        None => None,
    }
}

/// Whether the texts of the sockets of a node are addresses.
pub open spec fn are_addresses(m: NodeView, readings: Readings) -> bool {
    &&& is_address(m.gossip, readings)
    &&& is_address(m.tpu_quic, readings)
    &&& is_address(m.tpu_forwards_quic, readings)
    &&& is_address(m.tpu_vote_udp, readings)
    &&& is_address(m.tpu_vote_quic, readings)
    &&& is_address(m.tvu_udp, readings)
    &&& is_address(m.tvu_quic, readings)
    &&& is_address(m.serve_repair_udp, readings)
    &&& is_address(m.serve_repair_quic, readings)
    &&& is_address(m.rpc, readings)
    &&& is_address(m.rpc_pubsub, readings)
    &&& is_address(m.alpenglow, readings)
}

/// The node with its sockets as addresses are written.
pub open spec fn with_addresses(m: NodeView, readings: Readings) -> NodeView {
    NodeView {
        gossip: address(m.gossip, readings),
        tpu_quic: address(m.tpu_quic, readings),
        tpu_forwards_quic: address(m.tpu_forwards_quic, readings),
        tpu_vote_udp: address(m.tpu_vote_udp, readings),
        tpu_vote_quic: address(m.tpu_vote_quic, readings),
        tvu_udp: address(m.tvu_udp, readings),
        tvu_quic: address(m.tvu_quic, readings),
        serve_repair_udp: address(m.serve_repair_udp, readings),
        serve_repair_quic: address(m.serve_repair_quic, readings),
        rpc: address(m.rpc, readings),
        rpc_pubsub: address(m.rpc_pubsub, readings),
        alpenglow: address(m.alpenglow, readings),
        ..m
    }
}

/// The address that the text of a socket is, if there is one.
fn read_address(text: &Option<String>, readings: &Readings) -> (r: Result<Option<String>, ConvertError>)
    ensures
        if is_address(geyser::text_opt(*text), *readings) {
            r is Ok && geyser::text_opt(r->Ok_0) == address(geyser::text_opt(*text), *readings)
        } else {
            r is Err && r->Err_0 == ConvertError::InvalidSocket
        },
{
    match text {
        Some(text) => match readings.read_socket(text.as_str()) {
            Some(address) => Ok(Some(address)),
            None => Err(ConvertError::InvalidSocket),
        },
        None => Ok(None),
    }
}

/// Whether the numbers of a node fit.
pub open spec fn node_fits(m: NodeView) -> bool {
    &&& m.shred_version <= u16::MAX
    &&& m.version_major <= u16::MAX
    &&& m.version_minor <= u16::MAX
    &&& m.version_patch <= u16::MAX
    &&& m.version_client_id <= u16::MAX
}

/// What a validator would say of the node.
fn replica_contact_info(m: &SubscribeUpdateContactInfoNode, readings: &Readings) -> (r: Result<
    ReplicaContactInfo,
    ConvertError,
>)
    ensures
        if !node_fits(m@) {
            r is Err && r->Err_0 == ConvertError::InvalidNumber
        } else if !are_addresses(m@, *readings) {
            r is Err && r->Err_0 == ConvertError::InvalidSocket
        } else {
            r is Ok && plugin::contact_numbers(r->Ok_0) + plugin::contact_sockets(r->Ok_0)
                == node_bytes(with_addresses(m@, *readings))
        },
{
    let max: u32 = u16::MAX as u32;
    if m.shred_version > max || m.version_major > max || m.version_minor > max || m.version_patch
        > max || m.version_client_id > max {
        return Err(ConvertError::InvalidNumber);
    }
    let gossip = match read_address(&m.gossip, readings) {
        Ok(address) => address,
        Err(e) => return Err(e),
    };
    let tpu_quic = match read_address(&m.tpu_quic, readings) {
        Ok(address) => address,
        Err(e) => return Err(e),
    };
    let tpu_forwards_quic = match read_address(&m.tpu_forwards_quic, readings) {
        Ok(address) => address,
        Err(e) => return Err(e),
    };
    let tpu_vote_udp = match read_address(&m.tpu_vote_udp, readings) {
        Ok(address) => address,
        Err(e) => return Err(e),
    };
    let tpu_vote_quic = match read_address(&m.tpu_vote_quic, readings) {
        Ok(address) => address,
        Err(e) => return Err(e),
    };
    let tvu_udp = match read_address(&m.tvu_udp, readings) {
        Ok(address) => address,
        Err(e) => return Err(e),
    };
    let tvu_quic = match read_address(&m.tvu_quic, readings) {
        Ok(address) => address,
        Err(e) => return Err(e),
    };
    let serve_repair_udp = match read_address(&m.serve_repair_udp, readings) {
        Ok(address) => address,
        Err(e) => return Err(e),
    };
    let serve_repair_quic = match read_address(&m.serve_repair_quic, readings) {
        Ok(address) => address,
        Err(e) => return Err(e),
    };
    let rpc = match read_address(&m.rpc, readings) {
        Ok(address) => address,
        Err(e) => return Err(e),
    };
    let rpc_pubsub = match read_address(&m.rpc_pubsub, readings) {
        Ok(address) => address,
        Err(e) => return Err(e),
    };
    let alpenglow = match read_address(&m.alpenglow, readings) {
        Ok(address) => address,
        Err(e) => return Err(e),
    };
    Ok(
        ReplicaContactInfo {
            pubkey: copy::copy_bytes(&m.pubkey),
            wallclock: m.wallclock,
            outset: m.outset,
            shred_version: m.shred_version as u16,
            version_major: m.version_major as u16,
            version_minor: m.version_minor as u16,
            version_patch: m.version_patch as u16,
            version_commit: m.version_commit,
            version_feature_set: m.version_feature_set,
            version_client_id: m.version_client_id as u16,
            gossip,
            tpu_quic,
            tpu_forwards_quic,
            tpu_vote_udp,
            tpu_vote_quic,
            tvu_udp,
            tvu_quic,
            serve_repair_udp,
            serve_repair_quic,
            rpc,
            rpc_pubsub,
            alpenglow,
        },
    )
}

/// Whether each of the addresses is 32 bytes long.
pub open spec fn addresses(keys: Seq<Seq<u8>>) -> bool {
    forall|i: int| 0 <= i < keys.len() ==> (#[trigger] keys[i]).len() == 32
}

/// Whether each of the addresses is 32 bytes long.
fn check_addresses(keys: &Vec<Vec<u8>>) -> (r: bool)
    ensures
        r == addresses(geyser::bytes_each(keys@)),
{
    let mut i: usize = 0;
    while i < keys.len()
        invariant
            i <= keys@.len(),
            forall|j: int| 0 <= j < i ==> (#[trigger] keys@[j])@.len() == 32,
        decreases keys@.len() - i,
    {
        if keys[i].len() != PUBKEY_BYTES {
            assert(geyser::bytes_each(keys@)[i as int].len() != 32);
            return false;
        }
        i = i + 1;
    }
    true
}

/// The fields of a transaction as its shreds have it.
pub open spec fn deshred_bytes(m: DeshredInfoView, transaction: Seq<u8>) -> Seq<u8> {
    let loaded = if m.loaded_writable_addresses.len() == 0 && m.loaded_readonly_addresses.len()
        == 0 {
        Seq::empty()
    } else {
        encode::repeated_field(4, m.loaded_writable_addresses) + encode::repeated_field(
            5,
            m.loaded_readonly_addresses,
        )
    };
    wire::bytes_field(1, m.signature) + wire::bool_field_opt(2, m.is_vote) + wire::bytes_field(
        3,
        transaction,
    ) + loaded + wire::varint_field_opt(6, m.completed_data_set_starting_shred_index as u64)
        + wire::varint_field_opt(7, m.completed_data_set_ending_shred_index_exclusive as u64)
}

/// Why the transaction cannot be encoded again, where it cannot.
pub open spec fn deshred_failure(m: DeshredInfoView, readings: Readings) -> Option<ConvertError> {
    if m.transaction is None {
        Some(ConvertError::NoTransaction)
    } else if readings.body(m.transaction->Some_0) is None {
        Some(ConvertError::InvalidTransaction)
    } else if !addresses(m.loaded_writable_addresses) || !addresses(m.loaded_readonly_addresses) {
        Some(ConvertError::InvalidAddress)
    } else if m.signature.len() != 64 {
        Some(ConvertError::InvalidSignature)
    } else {
        None
    }
}

/// What a validator would say of the transaction.
fn replica_deshred_transaction(
    m: &SubscribeUpdateDeshredTransactionInfo,
    readings: &Readings,
) -> (r: Result<ReplicaDeshredTransactionInfo, ConvertError>)
    ensures
        match deshred_failure(m@, *readings) {
            Some(e) => r is Err && r->Err_0 == e,
            None => r is Ok && plugin::deshred_info_bytes(r->Ok_0) == deshred_bytes(
                m@,
                readings.body(m@.transaction->Some_0)->Some_0,
            ),
        },
{
    let transaction = match &m.transaction {
        Some(transaction) => match readings.read_body(transaction.as_slice()) {
            Some(transaction) => transaction,
            None => return Err(ConvertError::InvalidTransaction),
        },
        None => return Err(ConvertError::NoTransaction),
    };
    if !check_addresses(&m.loaded_writable_addresses) || !check_addresses(
        &m.loaded_readonly_addresses,
    ) {
        return Err(ConvertError::InvalidAddress);
    }
    let loaded_addresses = if m.loaded_writable_addresses.len() == 0
        && m.loaded_readonly_addresses.len() == 0 {
        None
    } else {
        Some(
            LoadedAddresses {
                writable: copy::copy_bytes_each(&m.loaded_writable_addresses),
                readonly: copy::copy_bytes_each(&m.loaded_readonly_addresses),
            },
        )
    };
    if m.signature.len() != SIGNATURE_BYTES {
        return Err(ConvertError::InvalidSignature);
    }
    Ok(
        ReplicaDeshredTransactionInfo {
            signature: copy::copy_bytes(&m.signature),
            is_vote: m.is_vote,
            transaction,
            loaded_addresses,
            completed_data_set_starting_shred_index: m.completed_data_set_starting_shred_index,
            completed_data_set_ending_shred_index_exclusive:
                m.completed_data_set_ending_shred_index_exclusive,
        },
    )
}

/// The update that is none of the stream, encoded again as a validator would tell of it. What the types
/// of the validator make of transactions, what block footers say, and which addresses the texts of
/// sockets are, is in the readings.
pub open spec fn raw_richat(
    update: Option<RichatView>,
    created_at: Option<Timestamp>,
    readings: Readings,
) -> RawUpdate {
    match (update, created_at) {
        (_, None) => Ok(None),
        (None, _) => Ok(None),
        (Some(RichatView::DeshredTransaction(m)), Some(ts)) => match m.transaction {
            Some(info) => match deshred_failure(info, readings) {
                Some(e) => Err(e),
                None => raw_bytes(
                    100,
                    encode::transaction_bytes(
                        deshred_bytes(
                            info,
                            readings.body(info.transaction->Some_0)->Some_0,
                        ),
                        m.slot,
                    ),
                    ts,
                ),
            },
            None => Ok(None),
        },
        (Some(RichatView::ContactInfo(m)), Some(ts)) => if !node_fits(m) {
            Err(ConvertError::InvalidNumber)
        } else if !are_addresses(m, readings) {
            Err(ConvertError::InvalidSocket)
        } else {
            raw_bytes(101, node_bytes(with_addresses(m, readings)), ts)
        },
        (Some(RichatView::ContactInfoRemoved { pubkey }), Some(ts)) => raw_bytes(
            102,
            wire::bytes_field_opt(1, pubkey),
            ts,
        ),
        (Some(RichatView::BlockFooter(m)), Some(ts)) => match readings.footer(m.footer) {
            Some(footer) => raw_bytes(103, plugin::footer_bytes(m.slot, m.bank_id, footer), ts),
            None => Err(ConvertError::InvalidBlockFooter),
        },
        (
            Some(
                RichatView::EntryUpdateParent { slot, cleared_bank_id, parent_slot, parent_block_id },
            ),
            Some(ts),
        ) => if parent_block_id.len() == 32 {
            raw_bytes(
                104,
                plugin::update_parent_bytes(slot, cleared_bank_id, parent_slot, parent_block_id),
                ts,
            )
        } else {
            Err(ConvertError::InvalidHash)
        },
        (
            Some(
                RichatView::DeshredUpdateParent {
                    slot,
                    update_parent_fec_set_index,
                    parent_slot,
                    parent_block_id,
                },
            ),
            Some(ts),
        ) => if parent_block_id.len() == 32 {
            raw_bytes(
                105,
                plugin::update_parent_bytes(
                    slot,
                    update_parent_fec_set_index as u64,
                    parent_slot,
                    parent_block_id,
                ),
                ts,
            )
        } else {
            Err(ConvertError::InvalidHash)
        },
    }
}

/// The update that is none of the stream, encoded again as a validator would tell of it.
#[verifier::rlimit(60)]
#[verifier::spinoff_prover]
pub fn convert_prost_to_raw_richat(
    update_oneof: &Option<UpdateOneofRichat>,
    created_at: Option<Timestamp>,
    readings: &Readings,
) -> (r: Result<Option<Vec<u8>>, ConvertError>)
    requires
        has_room(
            raw_richat(
                match update_oneof {
                    Some(m) => Some(m@),
                    None => None,
                },
                created_at,
                *readings,
            ),
        ),
    ensures
        is_raw(
            r,
            raw_richat(
                match update_oneof {
                    Some(m) => Some(m@),
                    None => None,
                },
                created_at,
                *readings,
            ),
        ),
{
    let created_at = match created_at {
        Some(created_at) => created_at,
        None => return Ok(None),
    };
    let update = match update_oneof {
        Some(update) => update,
        None => return Ok(None),
    };
    match update {
        UpdateOneofRichat::DeshredTransaction(m) => match &m.transaction {
            Some(info) => {
                let transaction = match replica_deshred_transaction(info, readings) {
                    Ok(transaction) => transaction,
                    Err(e) => return Err(e),
                };
                let msg = ProtobufMessage::DeshredTransaction {
                    slot: m.slot,
                    transaction: &transaction,
                };
                Ok(Some(msg.encode_with_timestamp(ProtobufEncoder::Raw, created_at)))
            },
            None => Ok(None),
        },
        UpdateOneofRichat::ContactInfo(m) => {
            let info = match replica_contact_info(m, readings) {
                Ok(info) => info,
                Err(e) => return Err(e),
            };
            let msg = ProtobufMessage::ContactInfo { info: &info };
            Ok(Some(msg.encode_with_timestamp(ProtobufEncoder::Raw, created_at)))
        },
        UpdateOneofRichat::ContactInfoRemoved { pubkey } => {
            let msg = ProtobufMessage::ContactInfoRemoved { pubkey: pubkey.as_slice() };
            Ok(Some(msg.encode_with_timestamp(ProtobufEncoder::Raw, created_at)))
        },
        UpdateOneofRichat::BlockFooter(m) => match readings.read_footer(m.footer.as_slice()) {
            Some(block_footer) => {
                let msg = ProtobufMessage::BlockFooter {
                    slot: m.slot,
                    bank_id: m.bank_id,
                    block_footer,
                };
                Ok(Some(msg.encode_with_timestamp(ProtobufEncoder::Raw, created_at)))
            },
            None => Err(ConvertError::InvalidBlockFooter),
        },
        UpdateOneofRichat::EntryUpdateParent(m) => match Pubkey::from_slice(
            m.parent_block_id.as_slice(),
        ) {
            Some(id) => {
                let info = ReplicaEntryUpdateParentInfo {
                    slot: m.slot,
                    cleared_bank_id: m.cleared_bank_id,
                    parent_slot: m.parent_slot,
                    parent_block_id: id.bytes,
                };
                let msg = ProtobufMessage::EntryUpdateParent { info: &info };
                Ok(Some(msg.encode_with_timestamp(ProtobufEncoder::Raw, created_at)))
            },
            None => Err(ConvertError::InvalidHash),
        },
        UpdateOneofRichat::DeshredUpdateParent(m) => match Pubkey::from_slice(
            m.parent_block_id.as_slice(),
        ) {
            Some(id) => {
                let info = ReplicaDeshredUpdateParentInfo {
                    slot: m.slot,
                    update_parent_fec_set_index: m.update_parent_fec_set_index,
                    parent_slot: m.parent_slot,
                    parent_block_id: id.bytes,
                };
                let msg = ProtobufMessage::DeshredUpdateParent { info: &info };
                Ok(Some(msg.encode_with_timestamp(ProtobufEncoder::Raw, created_at)))
            },
            None => Err(ConvertError::InvalidHash),
        },
    }
}

/// The update, encoded again as a validator would tell of it.
pub open spec fn raw_update(m: StreamView, readings: Readings) -> RawUpdate {
    match m {
        StreamView::Geyser { update, created_at, .. } => raw_geyser(update, created_at, readings),
        StreamView::Richat { update, created_at } => raw_richat(update, created_at, readings),
    }
}

/// The update, encoded again as a validator would tell of it.
pub fn convert_prost_to_raw(
    msg: &StreamUpdate,
    readings: &Readings,
) -> (r: Result<Option<Vec<u8>>, ConvertError>)
    requires
        has_room(raw_update(msg@, *readings)),
    ensures
        is_raw(r, raw_update(msg@, *readings)),
{
    match msg {
        StreamUpdate::Geyser { update_oneof, created_at, .. } => convert_prost_to_raw_geyser(
            update_oneof,
            *created_at,
            readings,
        ),
        StreamUpdate::Richat { update_oneof, created_at } => convert_prost_to_raw_richat(
            update_oneof,
            *created_at,
            readings,
        ),
    }
}

/// Whether an update was encoded as it would be again.
#[derive(Debug, Clone, Copy, PartialEq, Eq, Structural)]
pub enum Verdict {
    Same,
    Differs,
    /// There is nothing to compare with.
    Unknown,
    Failed(ConvertError),
}

/// Whether `data` is what an update is encoded to again.
pub open spec fn verdict(data: Seq<u8>, raw: RawUpdate) -> Verdict {
    match raw {
        Ok(Some(bytes)) => if bytes == data {
            Verdict::Same
        } else {
            Verdict::Differs
        },
        Ok(None) => Verdict::Unknown,
        Err(e) => Verdict::Failed(e),
    }
}

/// Whether the update that `data` was decoded to is encoded to `data` again.
pub fn verify_encoding(
    data: &[u8],
    msg: &StreamUpdate,
    readings: &Readings,
) -> (r: Verdict)
    requires
        has_room(raw_update(msg@, *readings)),
    ensures
        r == verdict(data@, raw_update(msg@, *readings)),
        r == match raw_update(msg@, *readings) {
            Ok(Some(bytes)) => if bytes == data@ {
                Verdict::Same
            } else {
                Verdict::Differs
            },
            Ok(None) => Verdict::Unknown,
            Err(e) => Verdict::Failed(e),
        },
{
    match convert_prost_to_raw(msg, readings) {
        Ok(Some(bytes)) => if filter::same_bytes(bytes.as_slice(), data) {
            Verdict::Same
        } else {
            Verdict::Differs
        },
        Ok(None) => Verdict::Unknown,
        Err(e) => Verdict::Failed(e),
    }
}

/// The envelope, encoded again: the names of the filters, the update, and the time.
pub open spec fn encoded_again(
    filters: Seq<Seq<char>>,
    update: Option<(u32, Seq<u8>)>,
    created_at: Option<Timestamp>,
) -> Seq<u8> {
    encode::repeated_field(1, encode::utf8_each(filters)) + geyser::oneof_bytes(update)
        + encode::optional_field(
        11,
        match created_at {
            Some(ts) => Some(codec::timestamp_bytes(ts)),
            None => None,
        },
    )
}

/// The names of filters, encoded.
fn filters_encode(filters: &Vec<String>) -> (r: Vec<u8>)
    ensures
        r@ == encode::repeated_field(1, encode::utf8_each(geyser::text_each(filters@))),
{
    let ghost all = encode::utf8_each(geyser::text_each(filters@));
    let mut buf: Vec<u8> = Vec::new();
    let mut i: usize = 0;
    assert(all.take(0) =~= Seq::<Seq<u8>>::empty());
    assert(encode::repeated_field(1, all.take(0)) =~= Seq::<u8>::empty());
    while i < filters.len()
        invariant
            i <= filters@.len(),
            all == encode::utf8_each(geyser::text_each(filters@)),
            buf@ == encode::repeated_field(1, all.take(i as int)),
        decreases filters@.len() - i,
    {
        encode::bytes_encode(1, filters[i].as_str().as_bytes(), &mut buf);
        proof {
            assert(all.take(i + 1).drop_last() =~= all.take(i as int));
            assert(all.take(i + 1).last() == vstd::utf8::encode_utf8(filters@[i as int]@));
        }
        i = i + 1;
    }
    assert(all.take(all.len() as int) =~= all);
    buf
}

/// What to say of an update that was not encoded as it would be again.
pub open spec fn mismatch(data: Seq<u8>) -> Seq<char> {
    "encoding doesn't match: "@ + text::hex(data)
}

/// What to say of an update that was not encoded as it would be again.
pub fn mismatch_text(data: &[u8]) -> (r: String)
    ensures
        r@ == mismatch(data@),
{
    let mut text: String = "encoding doesn't match: ".to_owned();
    text.append(text::hex_text(data).as_str());
    text
}

/// The update of the stream, decoded and encoded again as `prost` encodes it. An encoded update is as it
/// was.
pub fn encode_again(data: &[u8]) -> (r: Result<Vec<u8>, WireError>)
    ensures
        match geyser::prost_update(data@) {
            Some((filters, update, created_at)) => {
                r is Ok && r->Ok_0@ == encoded_again(filters, update, created_at)
            },
            None => r is Err && r->Err_0@ == richat::malformed(),
        },
        forall|filters: Seq<Seq<char>>, tag: u32, payload: Seq<u8>, ts: Timestamp|
            geyser::encoded_update(tag, payload) && data@ == #[trigger] encode::envelope_bytes(
                filters,
                tag,
                payload,
                ts,
            ) ==> r is Ok && r->Ok_0@ == data@,
{
    match geyser::decode_update(data) {
        Ok((filters, update, created_at)) => {
            let mut again: Vec<u8> = filters_encode(&filters);
            let ghost names = again@;
            encode::put_slice(update.as_slice(), &mut again);
            if let Some(ts) = created_at {
                codec::encode_timestamp(11, ts, &mut again);
            } else {
                assert(names + update@ + Seq::<u8>::empty() =~= names + update@);
            }
            Ok(again)
        },
        Err(_) => Err(error::create_decode_error(DecodeErrorKind::InvalidMessage)),
    }
}

/// What to say of an update of the stream, if anything: that it was not encoded as it would be again.
pub fn verify_geyser(data: &[u8], again: &[u8]) -> (r: Option<String>)
    ensures
        geyser::text_opt(r) == if data@ == again@ {
            None
        } else {
            Some(mismatch(data@))
        },
{
    if filter::same_bytes(again, data) {
        None
    } else {
        Some(mismatch_text(data))
    }
}

/// What an update of the stream says of what a validator tells of.
pub open spec fn told_geyser(m: &ProtobufMessage) -> Option<UpdateView> {
    match m {
        ProtobufMessage::Account { slot, account } => Some(
            UpdateView::Account(
                AccountView { account: Some(account@), slot: *slot, is_startup: false },
            ),
        ),
        ProtobufMessage::Slot { slot, parent, status } => Some(
            UpdateView::Slot(
                SlotView {
                    slot: *slot,
                    parent: *parent,
                    status: geyser::slot_status_number(status.in_update()),
                    dead_error: status.dead_error(),
                },
            ),
        ),
        ProtobufMessage::Transaction { slot, transaction } => Some(
            UpdateView::Transaction { transaction: Some(transaction@), slot: *slot },
        ),
        ProtobufMessage::BlockMeta { blockinfo } => Some(UpdateView::BlockMeta(blockinfo@)),
        ProtobufMessage::Entry { entry } => Some(UpdateView::Entry(entry@)),
        _ => None,
    }
}

/// Whether what a validator told of is whole: signatures have 64 bytes, a transaction comes with all that
/// is known of it, metadata comes with rewards, and addresses have 32 bytes.
pub open spec fn whole(m: &ProtobufMessage) -> bool {
    match m {
        ProtobufMessage::Account { account, .. } => signed(account@.txn_signature),
        ProtobufMessage::Transaction { transaction, .. } => {
            &&& transaction@.signature.len() == 64
            &&& transaction@.transaction is Some
            &&& transaction@.meta is Some
        },
        ProtobufMessage::BlockMeta { blockinfo } => blockinfo@.rewards is Some,
        ProtobufMessage::DeshredTransaction { slot, transaction } => {
            let told = richat::deshred_told(**transaction, *slot).transaction->Some_0;
            &&& addresses(told.loaded_writable_addresses)
            &&& addresses(told.loaded_readonly_addresses)
            &&& told.signature.len() == 64
        },
        _ => true,
    }
}

/// Whether the text of a socket, if there is one, is read as the address that it is.
pub open spec fn is_written(text: Option<Seq<char>>, readings: Readings) -> bool {
    text matches Some(text) ==> readings.socket(text) == Some(text)
}

/// Whether what a validator wrote of its own types is read as what it was written of.
pub open spec fn reads_back(readings: Readings, m: &ProtobufMessage) -> bool {
    match m {
        ProtobufMessage::Transaction { transaction, .. } => {
            readings.transaction(transaction@) == Ok::<TransactionView, &'static str>(
                TransactionView::Complete(
                    VersionedView {
                        transaction: transaction@.transaction->Some_0.encoded,
                        meta: transaction@.meta->Some_0.encoded,
                    },
                ),
            )
        },
        ProtobufMessage::BlockMeta { blockinfo } => {
            readings.reward_list(blockinfo@.rewards->Some_0) == blockinfo@.rewards
        },
        ProtobufMessage::DeshredTransaction { transaction, .. } => {
            readings.body(transaction.transaction@) == Some(transaction.transaction@)
        },
        ProtobufMessage::ContactInfo { info } => {
            let node = told::node_told(**info);
            &&& is_written(node.gossip, readings)
            &&& is_written(node.tpu_quic, readings)
            &&& is_written(node.tpu_forwards_quic, readings)
            &&& is_written(node.tpu_vote_udp, readings)
            &&& is_written(node.tpu_vote_quic, readings)
            &&& is_written(node.tvu_udp, readings)
            &&& is_written(node.tvu_quic, readings)
            &&& is_written(node.serve_repair_udp, readings)
            &&& is_written(node.serve_repair_quic, readings)
            &&& is_written(node.rpc, readings)
            &&& is_written(node.rpc_pubsub, readings)
            &&& is_written(node.alpenglow, readings)
        },
        ProtobufMessage::BlockFooter { block_footer, .. } => {
            readings.footer(block_footer.footer@) == Some(**block_footer)
        },
        _ => true,
    }
}

/// What a validator told of in the stream is encoded as it told of it, where its own types are read as
/// it wrote them.
pub proof fn law_geyser_verifies(m: &ProtobufMessage, created_at: Timestamp, readings: Readings)
    requires
        m.tag() < 100,
        whole(m),
        reads_back(readings, m),
    ensures
        told_geyser(m) is Some,
        raw_geyser(told_geyser(m), Some(created_at), readings) == Ok::<
            Option<Seq<u8>>,
            ConvertError,
        >(Some(m.encoded(created_at))),
{
}

/// What a validator told of beyond the stream is encoded as it told of it, where its own types are read
/// as it wrote them. Nothing need be read of nodes that left and of parents that changed.
pub proof fn law_richat_verifies(m: &ProtobufMessage, created_at: Timestamp, readings: Readings)
    requires
        m.tag() >= 100,
        whole(m),
        reads_back(readings, m),
    ensures
        raw_richat(told::told(m), Some(created_at), readings) == Ok::<
            Option<Seq<u8>>,
            ConvertError,
        >(Some(m.encoded(created_at))),
{
    match m {
        ProtobufMessage::ContactInfo { info } => {
            let node = told::node_told(**info);
            assert(with_addresses(node, readings) == node);
            assert(node_bytes(node) == plugin::contact_numbers(**info) + plugin::contact_sockets(
                **info,
            ));
        },
        _ => {},
    }
}

/// The bytes of what a validator told of beyond the stream are decoded to what is encoded to the same
/// bytes. Its own types are to be read as it wrote them, and transactions before replay are meant where
/// the decoder of these takes them for what they are.
pub proof fn law_richat_round_trip(m: &ProtobufMessage, created_at: Timestamp, readings: Readings)
    requires
        m.tag() >= 100,
        whole(m),
        reads_back(readings, m),
        m is DeshredTransaction ==> richat::richat_update(100, m.payload()) == told::told(m),
        m.payload().len() <= u64::MAX,
    ensures
        richat::richat_envelope(m.encoded(created_at)) matches Ok(decoded)
            && decoded.update matches Some((tag, payload)) && raw_richat(
            richat::richat_update(tag, payload),
            decoded.created_at,
            readings,
        ) == Ok::<Option<Seq<u8>>, ConvertError>(Some(m.encoded(created_at))),
{
    told::law_told_round_trip(m, created_at);
    law_richat_verifies(m, created_at, readings);
}

/// An update that is encoded again is made of its names, its update and its time, in this order. What is
/// not there leaves no bytes.
pub proof fn law_encoded_again(
    filters: Seq<Seq<char>>,
    update: Option<(u32, Seq<u8>)>,
    created_at: Option<Timestamp>,
    tag: u32,
    payload: Seq<u8>,
    ts: Timestamp,
)
    ensures
        encoded_again(filters, update, created_at) == encoded_again(filters, None, None)
            + encoded_again(Seq::empty(), update, None) + encoded_again(Seq::empty(), None, created_at),
        encoded_again(Seq::empty(), None, None) == Seq::<u8>::empty(),
        encoded_again(filters, Some((tag, payload)), Some(ts)) == encode::envelope_bytes(
            filters,
            tag,
            payload,
            ts,
        ),
{
    let none = encode::utf8_each(Seq::empty());
    assert(none =~= Seq::<Seq<u8>>::empty());
    assert(encode::repeated_field(1, none) =~= Seq::<u8>::empty());
    assert(encoded_again(filters, update, created_at) =~= encoded_again(filters, None, None)
        + encoded_again(Seq::empty(), update, None) + encoded_again(Seq::empty(), None, created_at));
}

/// What is said of an update that was encoded in another way ends in two digits for each of its bytes.
pub proof fn law_mismatch(data: Seq<u8>)
    ensures
        mismatch(data) == "encoding doesn't match: "@ + text::hex(data),
        mismatch(data).len() == 24 + 2 * data.len(),
{
    reveal_strlit("encoding doesn't match: ");
    assert("encoding doesn't match: "@.len() == 24);
}

} // verus!
