//! What a validator tells of, encoded as updates.
use prost::Message;
use vstd::prelude::*;
use yellowstone_grpc_proto::geyser as proto;

use crate::codec;
use crate::codec::Timestamp;
use crate::encode;
use crate::geyser;
use crate::geyser::{
    AccountView, SlotStatus, SlotView, SubscribeUpdateAccountInfo, SubscribeUpdateBlockMeta,
    SubscribeUpdateEntry, SubscribeUpdateTransactionInfo,
};
use crate::plugin;
use crate::plugin::{
    BankId, BlockFooter, BlockFooterView, ContactInfo, ContactInfoRemoved, DeshredTransaction,
    DeshredUpdateParent, EntryUpdateParent, RawMessage, ReplicaContactInfo,
    ReplicaDeshredTransactionInfo, ReplicaDeshredUpdateParentInfo, ReplicaEntryUpdateParentInfo,
};
use crate::pubkey::Slot as SlotNumber;
use crate::wire;

verus! {

/// Which encoder to use. Both encode the same.
#[derive(Debug, Clone, Copy, PartialEq, Eq, Structural)]
pub enum ProtobufEncoder {
    Prost,
    Raw,
}

/// What happened to a slot, as a validator says it.
#[derive(Debug)]
pub enum GeyserSlotStatus {
    Processed,
    Rooted,
    Confirmed,
    FirstShredReceived,
    Completed,
    CreatedBank,
    Dead(String),
}

impl GeyserSlotStatus {
    /// The status in an update.
    pub open spec fn in_update(&self) -> SlotStatus {
        match self {
            GeyserSlotStatus::Processed => SlotStatus::SlotProcessed,
            GeyserSlotStatus::Rooted => SlotStatus::SlotFinalized,
            GeyserSlotStatus::Confirmed => SlotStatus::SlotConfirmed,
            GeyserSlotStatus::FirstShredReceived => SlotStatus::SlotFirstShredReceived,
            GeyserSlotStatus::Completed => SlotStatus::SlotCompleted,
            GeyserSlotStatus::CreatedBank => SlotStatus::SlotCreatedBank,
            GeyserSlotStatus::Dead(_) => SlotStatus::SlotDead,
        }
    }

    /// Why the slot is dead, where it is.
    pub open spec fn dead_error(&self) -> Option<Seq<char>> {
        match self {
            GeyserSlotStatus::Dead(error) => Some(error@),
            _ => None,
        }
    }

    /// The status in an update.
    pub fn update_status(&self) -> (r: SlotStatus)
        ensures
            r == self.in_update(),
    {
        match self {
            GeyserSlotStatus::Processed => SlotStatus::SlotProcessed,
            GeyserSlotStatus::Rooted => SlotStatus::SlotFinalized,
            GeyserSlotStatus::Confirmed => SlotStatus::SlotConfirmed,
            GeyserSlotStatus::FirstShredReceived => SlotStatus::SlotFirstShredReceived,
            GeyserSlotStatus::Completed => SlotStatus::SlotCompleted,
            GeyserSlotStatus::CreatedBank => SlotStatus::SlotCreatedBank,
            GeyserSlotStatus::Dead(_) => SlotStatus::SlotDead,
        }
    }

    /// Why the slot is dead, where it is.
    pub fn error(&self) -> (r: Option<&str>)
        ensures
            self.dead_error() == match r {
                Some(text) => Some(text@),
                None => None,
            },
    {
        match self {
            GeyserSlotStatus::Dead(error) => Some(error.as_str()),
            _ => None,
        }
    }
}

/// What a validator tells of.
#[derive(Debug)]
pub enum ProtobufMessage<'a> {
    Account { slot: SlotNumber, account: &'a SubscribeUpdateAccountInfo },
    Slot { slot: SlotNumber, parent: Option<u64>, status: &'a GeyserSlotStatus },
    Transaction { slot: SlotNumber, transaction: &'a SubscribeUpdateTransactionInfo },
    Entry { entry: &'a SubscribeUpdateEntry },
    BlockMeta { blockinfo: &'a SubscribeUpdateBlockMeta },
    DeshredTransaction { slot: SlotNumber, transaction: &'a ReplicaDeshredTransactionInfo },
    ContactInfo { info: &'a ReplicaContactInfo },
    ContactInfoRemoved { pubkey: &'a [u8] },
    BlockFooter { slot: SlotNumber, bank_id: BankId, block_footer: &'a BlockFooterView },
    EntryUpdateParent { info: &'a ReplicaEntryUpdateParentInfo },
    DeshredUpdateParent { info: &'a ReplicaDeshredUpdateParentInfo },
}

/// An update with its time. Fields come in the order of their tags: that of the time is 11.
pub open spec fn update_bytes(tag: u32, payload: Seq<u8>, created_at: Timestamp) -> Seq<u8> {
    if tag < 11 {
        wire::bytes_field(tag, payload) + wire::bytes_field(
            11,
            codec::timestamp_bytes(created_at),
        )
    } else {
        wire::bytes_field(11, codec::timestamp_bytes(created_at)) + wire::bytes_field(tag, payload)
    }
}

impl ProtobufMessage<'_> {
    /// The slot that the message is about: contact information is about none.
    pub open spec fn slot(&self) -> Option<SlotNumber> {
        match self {
            ProtobufMessage::Account { slot, .. } => Some(*slot),
            ProtobufMessage::Slot { slot, .. } => Some(*slot),
            ProtobufMessage::Transaction { slot, .. } => Some(*slot),
            ProtobufMessage::Entry { entry } => Some(entry.slot),
            ProtobufMessage::BlockMeta { blockinfo } => Some(blockinfo.slot),
            ProtobufMessage::DeshredTransaction { slot, .. } => Some(*slot),
            ProtobufMessage::ContactInfo { .. } => None,
            ProtobufMessage::ContactInfoRemoved { .. } => None,
            ProtobufMessage::BlockFooter { slot, .. } => Some(*slot),
            ProtobufMessage::EntryUpdateParent { info } => Some(info.slot),
            ProtobufMessage::DeshredUpdateParent { info } => Some(info.slot),
        }
    }

    /// The tag of the update.
    pub open spec fn tag(&self) -> u32 {
        match self {
            ProtobufMessage::Account { .. } => 2,
            ProtobufMessage::Slot { .. } => 3,
            ProtobufMessage::Transaction { .. } => 4,
            ProtobufMessage::BlockMeta { .. } => 7,
            ProtobufMessage::Entry { .. } => 8,
            ProtobufMessage::DeshredTransaction { .. } => 100,
            ProtobufMessage::ContactInfo { .. } => 101,
            ProtobufMessage::ContactInfoRemoved { .. } => 102,
            ProtobufMessage::BlockFooter { .. } => 103,
            ProtobufMessage::EntryUpdateParent { .. } => 104,
            ProtobufMessage::DeshredUpdateParent { .. } => 105,
        }
    }

    /// The fields of the update.
    pub open spec fn payload(&self) -> Seq<u8> {
        match self {
            ProtobufMessage::Account { slot, account } => encode::account_bytes(
                AccountView { account: Some(account@), slot: *slot, is_startup: false },
            ),
            ProtobufMessage::Slot { slot, parent, status } => encode::slot_bytes(
                SlotView {
                    slot: *slot,
                    parent: *parent,
                    status: geyser::slot_status_number(status.in_update()),
                    dead_error: status.dead_error(),
                },
            ),
            ProtobufMessage::Transaction { slot, transaction } => encode::transaction_bytes(
                encode::transaction_info_bytes(transaction@),
                *slot,
            ),
            ProtobufMessage::BlockMeta { blockinfo } => encode::block_meta_bytes(blockinfo@),
            ProtobufMessage::Entry { entry } => encode::entry_bytes(entry@),
            ProtobufMessage::DeshredTransaction { slot, transaction } => encode::transaction_bytes(
                plugin::deshred_info_bytes(**transaction),
                *slot,
            ),
            ProtobufMessage::ContactInfo { info } => plugin::contact_numbers(**info)
                + plugin::contact_sockets(**info),
            ProtobufMessage::ContactInfoRemoved { pubkey } => wire::bytes_field_opt(1, pubkey@),
            ProtobufMessage::BlockFooter { slot, bank_id, block_footer } => plugin::footer_bytes(
                *slot,
                *bank_id,
                **block_footer,
            ),
            ProtobufMessage::EntryUpdateParent { info } => plugin::update_parent_bytes(
                info.slot,
                info.cleared_bank_id,
                info.parent_slot,
                info.parent_block_id@,
            ),
            ProtobufMessage::DeshredUpdateParent { info } => plugin::update_parent_bytes(
                info.slot,
                info.update_parent_fec_set_index as u64,
                info.parent_slot,
                info.parent_block_id@,
            ),
        }
    }

    /// The update with its time.
    pub open spec fn encoded(&self, created_at: Timestamp) -> Seq<u8> {
        update_bytes(self.tag(), self.payload(), created_at)
    }

    /// The slot that the message is about.
    pub fn get_slot(&self) -> (r: Option<SlotNumber>)
        ensures
            r == self.slot(),
    {
        match self {
            ProtobufMessage::Account { slot, .. } => Some(*slot),
            ProtobufMessage::Slot { slot, .. } => Some(*slot),
            ProtobufMessage::Transaction { slot, .. } => Some(*slot),
            ProtobufMessage::Entry { entry } => Some(entry.slot),
            ProtobufMessage::BlockMeta { blockinfo } => Some(blockinfo.slot),
            ProtobufMessage::DeshredTransaction { slot, .. } => Some(*slot),
            ProtobufMessage::ContactInfo { .. } => None,
            ProtobufMessage::ContactInfoRemoved { .. } => None,
            ProtobufMessage::BlockFooter { slot, .. } => Some(*slot),
            ProtobufMessage::EntryUpdateParent { info } => Some(info.slot),
            ProtobufMessage::DeshredUpdateParent { info } => Some(info.slot),
        }
    }
}

// ---------------------------------------------------------------------------------------------
// The raw encoder
// ---------------------------------------------------------------------------------------------

/// An account update.
#[derive(Debug)]
pub struct Account<'a> {
    slot: SlotNumber,
    account: &'a SubscribeUpdateAccountInfo,
}

impl<'a> Account<'a> {
    /// The update of the account.
    pub fn new(slot: SlotNumber, account: &'a SubscribeUpdateAccountInfo) -> (r: Self)
        ensures
            r.bytes() == encode::account_bytes(
                AccountView { account: Some(account@), slot, is_startup: false },
            ),
    {
        Account { slot, account }
    }

    /// The fields of the account.
    fn info(&self) -> (r: Vec<u8>)
        ensures
            r@ == encode::account_info_bytes(self.account@),
    {
        let account = self.account;
        let signature: Option<&[u8]> = match &account.txn_signature {
            Some(signature) => Some(signature.as_slice()),
            None => None,
        };
        let mut info: Vec<u8> = Vec::new();
        encode::account_info_encode(
            account.pubkey.as_slice(),
            account.lamports,
            account.owner.as_slice(),
            account.executable,
            account.rent_epoch,
            account.data.as_slice(),
            account.write_version,
            signature,
            &mut info,
        );
        assert(info@ =~= encode::account_info_bytes(account@));
        info
    }
}

impl RawMessage for Account<'_> {
    closed spec fn bytes(&self) -> Seq<u8> {
        encode::account_bytes(
            AccountView { account: Some(self.account@), slot: self.slot, is_startup: false },
        )
    }

    fn encode_raw(&self, buf: &mut Vec<u8>) {
        let info = self.info();
        encode::account_encode(info.as_slice(), self.slot, false, buf);
    }

    fn encoded_len(&self) -> (r: usize) {
        let mut buf: Vec<u8> = Vec::new();
        self.encode_raw(&mut buf);
        assert(buf@ =~= self.bytes());
        buf.len()
    }
}

/// A slot update.
#[derive(Debug)]
pub struct Slot<'a> {
    slot: SlotNumber,
    parent: Option<SlotNumber>,
    status: &'a GeyserSlotStatus,
}

impl<'a> Slot<'a> {
    /// The update of the slot.
    pub fn new(slot: SlotNumber, parent: Option<SlotNumber>, status: &'a GeyserSlotStatus) -> (r:
        Self)
        ensures
            r.bytes() == encode::slot_bytes(
                SlotView {
                    slot,
                    parent,
                    status: geyser::slot_status_number(status.in_update()),
                    dead_error: status.dead_error(),
                },
            ),
    {
        Slot { slot, parent, status }
    }
}

impl RawMessage for Slot<'_> {
    closed spec fn bytes(&self) -> Seq<u8> {
        encode::slot_bytes(
            SlotView {
                slot: self.slot,
                parent: self.parent,
                status: geyser::slot_status_number(self.status.in_update()),
                dead_error: self.status.dead_error(),
            },
        )
    }

    fn encode_raw(&self, buf: &mut Vec<u8>) {
        encode::slot_encode(
            self.slot,
            self.parent,
            self.status.update_status().number(),
            self.status.error(),
            buf,
        );
    }

    fn encoded_len(&self) -> (r: usize) {
        let mut buf: Vec<u8> = Vec::new();
        self.encode_raw(&mut buf);
        assert(buf@ =~= self.bytes());
        buf.len()
    }
}

/// A transaction update.
#[derive(Debug)]
pub struct Transaction<'a> {
    slot: SlotNumber,
    transaction: &'a SubscribeUpdateTransactionInfo,
}

impl<'a> Transaction<'a> {
    /// The update of the transaction.
    pub fn new(slot: SlotNumber, transaction: &'a SubscribeUpdateTransactionInfo) -> (r: Self)
        ensures
            r.bytes() == encode::transaction_bytes(
                encode::transaction_info_bytes(transaction@),
                slot,
            ),
    {
        Transaction { slot, transaction }
    }
}

impl RawMessage for Transaction<'_> {
    closed spec fn bytes(&self) -> Seq<u8> {
        encode::transaction_bytes(encode::transaction_info_bytes(self.transaction@), self.slot)
    }

    fn encode_raw(&self, buf: &mut Vec<u8>) {
        let mut info: Vec<u8> = Vec::new();
        encode::transaction_info_encode(self.transaction, &mut info);
        assert(info@ =~= encode::transaction_info_bytes(self.transaction@));
        encode::transaction_encode(info.as_slice(), self.slot, buf);
    }

    fn encoded_len(&self) -> (r: usize) {
        let mut buf: Vec<u8> = Vec::new();
        self.encode_raw(&mut buf);
        assert(buf@ =~= self.bytes());
        buf.len()
    }
}

/// A block metadata update.
#[derive(Debug)]
pub struct BlockMeta<'a> {
    blockinfo: &'a SubscribeUpdateBlockMeta,
}

impl<'a> BlockMeta<'a> {
    /// The update of the block.
    pub fn new(blockinfo: &'a SubscribeUpdateBlockMeta) -> (r: Self)
        ensures
            r.bytes() == encode::block_meta_bytes(blockinfo@),
    {
        BlockMeta { blockinfo }
    }
}

impl RawMessage for BlockMeta<'_> {
    closed spec fn bytes(&self) -> Seq<u8> {
        encode::block_meta_bytes(self.blockinfo@)
    }

    fn encode_raw(&self, buf: &mut Vec<u8>) {
        encode::block_meta_encode(self.blockinfo, buf);
    }

    fn encoded_len(&self) -> (r: usize) {
        let mut buf: Vec<u8> = Vec::new();
        self.encode_raw(&mut buf);
        assert(buf@ =~= self.bytes());
        buf.len()
    }
}

/// An entry update.
#[derive(Debug)]
pub struct Entry<'a> {
    entry: &'a SubscribeUpdateEntry,
}

impl<'a> Entry<'a> {
    /// The update of the entry.
    pub fn new(entry: &'a SubscribeUpdateEntry) -> (r: Self)
        ensures
            r.bytes() == encode::entry_bytes(entry@),
    {
        Entry { entry }
    }
}

impl RawMessage for Entry<'_> {
    closed spec fn bytes(&self) -> Seq<u8> {
        encode::entry_bytes(self.entry@)
    }

    fn encode_raw(&self, buf: &mut Vec<u8>) {
        encode::entry_encode(self.entry, buf);
    }

    fn encoded_len(&self) -> (r: usize) {
        let mut buf: Vec<u8> = Vec::new();
        self.encode_raw(&mut buf);
        assert(buf@ =~= self.bytes());
        buf.len()
    }
}

/// The message with its tag, and the time.
fn encode_update<M: RawMessage>(tag: u32, message: &M, created_at: Timestamp) -> (r: Vec<u8>)
    requires
        1 <= tag <= wire::MAX_TAG,
        update_bytes(tag, message.bytes(), created_at).len() <= usize::MAX,
    ensures
        r@ == update_bytes(tag, message.bytes(), created_at),
{
    let size: usize = plugin::message_encoded_len(tag, message) + codec::encoded_len_timestamp(
        11,
        created_at,
    );
    let mut vec: Vec<u8> = Vec::with_capacity(size);
    if tag < 11 {
        plugin::message_encode(tag, message, &mut vec);
        codec::encode_timestamp(11, created_at, &mut vec);
    } else {
        codec::encode_timestamp(11, created_at, &mut vec);
        plugin::message_encode(tag, message, &mut vec);
    }
    assert(vec@ =~= update_bytes(tag, message.bytes(), created_at));
    vec
}

impl ProtobufMessage<'_> {
    /// The update with its time.
    pub fn encode_raw(&self, created_at: Timestamp) -> (r: Vec<u8>)
        requires
            self.encoded(created_at).len() <= usize::MAX,
        ensures
            r@ == self.encoded(created_at),
    {
        match self {
            ProtobufMessage::Account { slot, account } => encode_update(
                2,
                &Account::new(*slot, account),
                created_at,
            ),
            ProtobufMessage::Slot { slot, parent, status } => encode_update(
                3,
                &Slot::new(*slot, *parent, status),
                created_at,
            ),
            ProtobufMessage::Transaction { slot, transaction } => encode_update(
                4,
                &Transaction::new(*slot, transaction),
                created_at,
            ),
            ProtobufMessage::BlockMeta { blockinfo } => encode_update(
                7,
                &BlockMeta::new(blockinfo),
                created_at,
            ),
            ProtobufMessage::Entry { entry } => encode_update(8, &Entry::new(entry), created_at),
            ProtobufMessage::DeshredTransaction { slot, transaction } => encode_update(
                100,
                &DeshredTransaction::new(*slot, transaction),
                created_at,
            ),
            ProtobufMessage::ContactInfo { info } => encode_update(
                101,
                &ContactInfo::new(info),
                created_at,
            ),
            ProtobufMessage::ContactInfoRemoved { pubkey } => encode_update(
                102,
                &ContactInfoRemoved::new(pubkey),
                created_at,
            ),
            ProtobufMessage::BlockFooter { slot, bank_id, block_footer } => encode_update(
                103,
                &BlockFooter::new(*slot, *bank_id, block_footer),
                created_at,
            ),
            ProtobufMessage::EntryUpdateParent { info } => encode_update(
                104,
                &EntryUpdateParent::new(info),
                created_at,
            ),
            ProtobufMessage::DeshredUpdateParent { info } => encode_update(
                105,
                &DeshredUpdateParent::new(info),
                created_at,
            ),
        }
    }
}

// ---------------------------------------------------------------------------------------------
// The encoder of prost
// ---------------------------------------------------------------------------------------------

/// `SubscribeUpdate::encode_to_vec` of `yellowstone-grpc-proto` for an account update without
/// filters: the update with its time, each field that has its default value left out.
#[verifier::external_body]
fn prost_account(slot: SlotNumber, account: &SubscribeUpdateAccountInfo, ts: Timestamp) -> (r: Vec<
    u8,
>)
    ensures
        r@ == update_bytes(
            2,
            encode::account_bytes(AccountView { account: Some(account@), slot, is_startup: false }),
            ts,
        ),
{
    let a = account.clone();
    let (pubkey, lamports, owner, executable) = (a.pubkey, a.lamports, a.owner, a.executable);
    let (rent_epoch, data, txn_signature) = (a.rent_epoch, a.data, a.txn_signature);
    let write_version = a.write_version;
    let account = Some(proto::SubscribeUpdateAccountInfo {
        pubkey, lamports, owner, executable, rent_epoch, data, write_version, txn_signature,
    });
    let update = proto::SubscribeUpdateAccount { account, slot, is_startup: false };
    let update_oneof = Some(proto::subscribe_update::UpdateOneof::Account(update));
    let created_at = Some(prost_types::Timestamp { seconds: ts.seconds, nanos: ts.nanos });
    proto::SubscribeUpdate { filters: Vec::new(), update_oneof, created_at }.encode_to_vec()
}

/// `SubscribeUpdate::encode_to_vec` of `yellowstone-grpc-proto` for a slot update without filters:
/// the update with its time, each field that has its default value left out.
#[verifier::external_body]
fn prost_slot(
    slot: SlotNumber,
    parent: Option<u64>,
    status: i32,
    dead_error: Option<&str>,
    ts: Timestamp,
) -> (r: Vec<u8>)
    ensures
        r@ == update_bytes(
            3,
            encode::slot_bytes(
                SlotView {
                    slot,
                    parent,
                    status,
                    dead_error: match dead_error {
                        Some(text) => Some(text@),
                        None => None,
                    },
                },
            ),
            ts,
        ),
{
    let dead_error = dead_error.map(|text| text.to_owned());
    let update = proto::SubscribeUpdateSlot { slot, parent, status, dead_error };
    let update_oneof = Some(proto::subscribe_update::UpdateOneof::Slot(update));
    let created_at = Some(prost_types::Timestamp { seconds: ts.seconds, nanos: ts.nanos });
    proto::SubscribeUpdate { filters: Vec::new(), update_oneof, created_at }.encode_to_vec()
}

/// `SubscribeUpdate::encode_to_vec` of `yellowstone-grpc-proto` for an entry update without filters:
/// the update with its time, each field that has its default value left out.
#[verifier::external_body]
fn prost_entry(entry: &SubscribeUpdateEntry, ts: Timestamp) -> (r: Vec<u8>)
    ensures
        r@ == update_bytes(8, encode::entry_bytes(entry@), ts),
{
    let update = proto::SubscribeUpdateEntry {
        slot: entry.slot,
        index: entry.index,
        num_hashes: entry.num_hashes,
        hash: entry.hash.clone(),
        executed_transaction_count: entry.executed_transaction_count,
        starting_transaction_index: entry.starting_transaction_index,
    };
    let update_oneof = Some(proto::subscribe_update::UpdateOneof::Entry(update));
    let created_at = Some(prost_types::Timestamp { seconds: ts.seconds, nanos: ts.nanos });
    proto::SubscribeUpdate { filters: Vec::new(), update_oneof, created_at }.encode_to_vec()
}

/// `SubscribeUpdateContactInfoRemoved::encode_to_vec` of `yellowstone-grpc-proto`: the public key,
/// left out where it is empty.
#[verifier::external_body]
fn prost_contact_info_removed(pubkey: &[u8]) -> (r: Vec<u8>)
    ensures
        r@ == wire::bytes_field_opt(1, pubkey@),
{
    proto::SubscribeUpdateContactInfoRemoved { pubkey: pubkey.to_vec() }.encode_to_vec()
}

/// `SubscribeUpdateContactInfoNode::encode_to_vec` of `yellowstone-grpc-proto`: the fields of a node,
/// each that has its default value left out.
#[verifier::external_body]
fn prost_contact_info(info: &ReplicaContactInfo) -> (r: Vec<u8>)
    ensures
        r@ == plugin::contact_numbers(*info) + plugin::contact_sockets(*info),
{
    let c = info.clone();
    proto::SubscribeUpdateContactInfoNode {
        pubkey: c.pubkey, wallclock: c.wallclock, outset: c.outset,
        shred_version: c.shred_version.into(), version_major: c.version_major.into(),
        version_minor: c.version_minor.into(), version_patch: c.version_patch.into(),
        version_commit: c.version_commit, version_feature_set: c.version_feature_set,
        version_client_id: c.version_client_id.into(), gossip: c.gossip, tpu_quic: c.tpu_quic,
        tpu_forwards_quic: c.tpu_forwards_quic, tpu_vote_udp: c.tpu_vote_udp,
        tpu_vote_quic: c.tpu_vote_quic, tvu_udp: c.tvu_udp, tvu_quic: c.tvu_quic,
        serve_repair_udp: c.serve_repair_udp, serve_repair_quic: c.serve_repair_quic,
        rpc: c.rpc, rpc_pubsub: c.rpc_pubsub, alpenglow: c.alpenglow,
    }
    .encode_to_vec()
}

/// The encoded update with its time.
fn with_time(tag: u32, payload: &[u8], created_at: Timestamp) -> (r: Vec<u8>)
    requires
        1 <= tag <= wire::MAX_TAG,
    ensures
        r@ == update_bytes(tag, payload@, created_at),
{
    let mut vec: Vec<u8> = Vec::new();
    if tag < 11 {
        encode::bytes_encode(tag, payload, &mut vec);
        codec::encode_timestamp(11, created_at, &mut vec);
    } else {
        codec::encode_timestamp(11, created_at, &mut vec);
        encode::bytes_encode(tag, payload, &mut vec);
    }
    assert(vec@ =~= update_bytes(tag, payload@, created_at));
    vec
}

/// The fields of the message.
fn fields_of<M: RawMessage>(message: &M) -> (r: Vec<u8>)
    ensures
        r@ == message.bytes(),
{
    let mut vec: Vec<u8> = Vec::new();
    message.encode_raw(&mut vec);
    assert(vec@ =~= message.bytes());
    vec
}

impl ProtobufMessage<'_> {
    /// The update with its time. Accounts, slots, entries and contact infos are encoded by `prost`.
    /// Transactions and block metadata, whose parts the library holds encoded, and what `prost` has no type
    /// for go through the encoder of the library: of these both encoders agree because they are one.
    pub fn encode_prost(&self, created_at: Timestamp) -> (r: Vec<u8>)
        ensures
            r@ == self.encoded(created_at),
    {
        match self {
            ProtobufMessage::Account { slot, account } => prost_account(*slot, account, created_at),
            ProtobufMessage::Slot { slot, parent, status } => prost_slot(
                *slot,
                *parent,
                status.update_status().number(),
                status.error(),
                created_at,
            ),
            ProtobufMessage::Transaction { slot, transaction } => {
                let payload = fields_of(&Transaction::new(*slot, transaction));
                with_time(4, payload.as_slice(), created_at)
            },
            ProtobufMessage::BlockMeta { blockinfo } => {
                let payload = fields_of(&BlockMeta::new(blockinfo));
                with_time(7, payload.as_slice(), created_at)
            },
            ProtobufMessage::Entry { entry } => prost_entry(entry, created_at),
            ProtobufMessage::DeshredTransaction { slot, transaction } => {
                let payload = fields_of(&DeshredTransaction::new(*slot, transaction));
                with_time(100, payload.as_slice(), created_at)
            },
            ProtobufMessage::ContactInfo { info } => {
                let payload = prost_contact_info(info);
                with_time(101, payload.as_slice(), created_at)
            },
            ProtobufMessage::ContactInfoRemoved { pubkey } => {
                let payload = prost_contact_info_removed(pubkey);
                with_time(102, payload.as_slice(), created_at)
            },
            ProtobufMessage::BlockFooter { slot, bank_id, block_footer } => {
                let payload = fields_of(&BlockFooter::new(*slot, *bank_id, block_footer));
                with_time(103, payload.as_slice(), created_at)
            },
            ProtobufMessage::EntryUpdateParent { info } => {
                let payload = fields_of(&EntryUpdateParent::new(info));
                with_time(104, payload.as_slice(), created_at)
            },
            ProtobufMessage::DeshredUpdateParent { info } => {
                let payload = fields_of(&DeshredUpdateParent::new(info));
                with_time(105, payload.as_slice(), created_at)
            },
        }
    }

    /// The update with its time. Both encoders make the same of it.
    pub fn encode_with_timestamp(&self, encoder: ProtobufEncoder, created_at: Timestamp) -> (r: Vec<
        u8,
    >)
        requires
            self.encoded(created_at).len() <= usize::MAX,
        ensures
            r@ == self.encoded(created_at),
    {
        match encoder {
            ProtobufEncoder::Prost => self.encode_prost(created_at),
            ProtobufEncoder::Raw => self.encode_raw(created_at),
        }
    }
}

} // verus!
