//! Updates as they are shown: keys, hashes and bytes as text.
use vstd::prelude::*;
use vstd::string::StringExecFns;

use crate::block;
use crate::block::{Reward, RewardView};
use crate::geyser;
use crate::geyser::{
    AccountInfoView, BlockMetaView, BlockView, EntryView, SlotStatus, SlotView, SubscribeUpdateAccountInfo,
    SubscribeUpdateBlock, SubscribeUpdateBlockMeta, SubscribeUpdateEntry, SubscribeUpdateSlot,
    SubscribeUpdateTransactionInfo, SubscribeUpdateTransactionStatus, TransactionInfoView,
    TransactionStatusView,
};
use crate::message::ParseFailure;
use crate::parser;
use crate::pubkey::{Pubkey, Signature};
use crate::readings::{Readings, TransactionView, TransactionWithStatusMeta};
use crate::richat::{
    DeshredInfoView, FooterView, RichatView, SubscribeUpdateBlockFooter,
    SubscribeUpdateContactInfoNode, SubscribeUpdateDeshredTransactionInfo, UpdateOneofRichat,
};
use crate::text;

verus! {

/// Why an update cannot be shown.
#[derive(Debug, Clone, Copy, PartialEq, Eq, Structural)]
pub enum StreamError {
    NoCreatedAt,
    /// The time is none that the machine can hold.
    InvalidCreatedAt,
    InvalidStatus,
    NoAccount,
    NoTransaction,
    InvalidAccountPubkey,
    InvalidAccountOwner,
    InvalidTxnSignature,
    InvalidSignature,
    /// The types of the validator make nothing of a transaction with all that is known of it.
    InvalidTransaction,
    /// The types of the validator make nothing of a transaction alone.
    InvalidBody,
    /// The types of the validator make nothing of why a transaction failed.
    InvalidError,
    MissingTransaction,
    InvalidEntryHash,
    InvalidRewards,
    InvalidPubkey,
    InvalidParentBlockId,
    InvalidBankHash,
    /// A part of a block is none.
    Malformed,
}

impl StreamError {
    /// What to say of it.
    pub open spec fn text(self) -> &'static str {
        match self {
            StreamError::NoCreatedAt => "no created_at in the message",
            StreamError::InvalidCreatedAt => "failed to parse created_at",
            StreamError::InvalidStatus => "failed to decode commitment",
            StreamError::NoAccount => "no account in the message",
            StreamError::NoTransaction => "no transaction in the message",
            StreamError::InvalidAccountPubkey => "invalid account pubkey",
            StreamError::InvalidAccountOwner => "invalid account owner",
            StreamError::InvalidTxnSignature => "invalid txn signature",
            StreamError::InvalidSignature => "invalid signature",
            StreamError::InvalidTransaction => "invalid tx with meta",
            StreamError::InvalidBody => "invalid transaction",
            StreamError::InvalidError => "invalid error",
            StreamError::MissingTransaction => "no transaction",
            StreamError::InvalidEntryHash => "invalid entry hash",
            StreamError::InvalidRewards => "invalid rewards",
            StreamError::InvalidPubkey => "invalid pubkey",
            StreamError::InvalidParentBlockId => "invalid parent block id",
            StreamError::InvalidBankHash => "invalid bank hash",
            StreamError::Malformed => "invalid part of a block",
        }
    }

    /// What to say of it.
    pub fn message(&self) -> (r: &'static str)
        ensures
            r == self.text(),
    {
        match self {
            StreamError::NoCreatedAt => "no created_at in the message",
            StreamError::InvalidCreatedAt => "failed to parse created_at",
            StreamError::InvalidStatus => "failed to decode commitment",
            StreamError::NoAccount => "no account in the message",
            StreamError::NoTransaction => "no transaction in the message",
            StreamError::InvalidAccountPubkey => "invalid account pubkey",
            StreamError::InvalidAccountOwner => "invalid account owner",
            StreamError::InvalidTxnSignature => "invalid txn signature",
            StreamError::InvalidSignature => "invalid signature",
            StreamError::InvalidTransaction => "invalid tx with meta",
            StreamError::InvalidBody => "invalid transaction",
            StreamError::InvalidError => "invalid error",
            StreamError::MissingTransaction => "no transaction",
            StreamError::InvalidEntryHash => "invalid entry hash",
            StreamError::InvalidRewards => "invalid rewards",
            StreamError::InvalidPubkey => "invalid pubkey",
            StreamError::InvalidParentBlockId => "invalid parent block id",
            StreamError::InvalidBankHash => "invalid bank hash",
            StreamError::Malformed => "invalid part of a block",
        }
    }
}

/// The key in base 58.
fn show_key(bytes: &[u8]) -> (r: Option<String>)
    ensures
        r is Some <==> bytes@.len() == 32,
        r is Some ==> r->Some_0@ == text::base58(bytes@),
{
    match Pubkey::from_slice(bytes) {
        Some(key) => Some(text::pubkey_text(&key)),
        None => None,
    }
}

/// The signature in base 58.
fn show_signature(bytes: &[u8]) -> (r: Option<String>)
    ensures
        r is Some <==> bytes@.len() == 64,
        r is Some ==> r->Some_0@ == text::base58(bytes@),
{
    match Signature::from_slice(bytes) {
        Some(signature) => Some(text::signature_text(&signature)),
        None => None,
    }
}

/// The hash in base 58.
pub fn create_pretty_hash(hash: &[u8]) -> (r: Option<String>)
    ensures
        r is Some <==> hash@.len() == 32,
        r is Some ==> r->Some_0@ == text::base58(hash@),
{
    match Pubkey::from_slice(hash) {
        Some(hash) => Some(text::hash_text(&hash.bytes)),
        None => None,
    }
}

// ---------------------------------------------------------------------------------------------
// Updates of the stream
// ---------------------------------------------------------------------------------------------

/// An account as it is shown.
#[derive(Debug)]
pub struct PrettyAccount {
    pub pubkey: String,
    pub lamports: u64,
    pub owner: String,
    pub executable: bool,
    pub rent_epoch: u64,
    pub data: String,
    pub write_version: u64,
    pub txn_signature: Option<String>,
}

impl PrettyAccount {
    /// Whether this shows the account.
    pub open spec fn shows(&self, m: AccountInfoView) -> bool {
        &&& self.pubkey@ == text::base58(m.pubkey)
        &&& self.lamports == m.lamports
        &&& self.owner@ == text::base58(m.owner)
        &&& self.executable == m.executable
        &&& self.rent_epoch == m.rent_epoch
        &&& self.data@ == text::hex(m.data)
        &&& self.write_version == m.write_version
        &&& geyser::text_opt(self.txn_signature) == match m.txn_signature {
            Some(signature) => Some(text::base58(signature)),
            None => None,
        }
    }
}

/// Why the account cannot be shown, where it cannot.
pub open spec fn account_failure(m: AccountInfoView) -> Option<StreamError> {
    if m.pubkey.len() != 32 {
        Some(StreamError::InvalidAccountPubkey)
    } else if m.owner.len() != 32 {
        Some(StreamError::InvalidAccountOwner)
    } else if m.txn_signature is Some && m.txn_signature->Some_0.len() != 64 {
        Some(StreamError::InvalidTxnSignature)
    } else {
        None
    }
}

/// The account as it is shown.
pub fn create_pretty_account(account: &SubscribeUpdateAccountInfo) -> (r: Result<
    PrettyAccount,
    StreamError,
>)
    ensures
        match account_failure(account@) {
            Some(e) => r is Err && r->Err_0 == e,
            None => r is Ok && r->Ok_0.shows(account@),
        },
{
    let pubkey = match show_key(account.pubkey.as_slice()) {
        Some(pubkey) => pubkey,
        None => return Err(StreamError::InvalidAccountPubkey),
    };
    let owner = match show_key(account.owner.as_slice()) {
        Some(owner) => owner,
        None => return Err(StreamError::InvalidAccountOwner),
    };
    let txn_signature = match &account.txn_signature {
        Some(signature) => match show_signature(signature.as_slice()) {
            Some(signature) => Some(signature),
            None => return Err(StreamError::InvalidTxnSignature),
        },
        None => None,
    };
    Ok(
        PrettyAccount {
            pubkey,
            lamports: account.lamports,
            owner,
            executable: account.executable,
            rent_epoch: account.rent_epoch,
            data: text::hex_text(account.data.as_slice()),
            write_version: account.write_version,
            txn_signature,
        },
    )
}

/// A slot as it is shown.
#[derive(Debug)]
pub struct PrettySlot {
    pub slot: u64,
    pub parent: Option<u64>,
    pub status: &'static str,
    pub dead_error: Option<String>,
}

/// The name of a status.
pub open spec fn status_name(status: SlotStatus) -> &'static str {
    match status {
        SlotStatus::SlotProcessed => "SLOT_PROCESSED",
        SlotStatus::SlotConfirmed => "SLOT_CONFIRMED",
        SlotStatus::SlotFinalized => "SLOT_FINALIZED",
        SlotStatus::SlotFirstShredReceived => "SLOT_FIRST_SHRED_RECEIVED",
        SlotStatus::SlotCompleted => "SLOT_COMPLETED",
        SlotStatus::SlotCreatedBank => "SLOT_CREATED_BANK",
        SlotStatus::SlotDead => "SLOT_DEAD",
    }
}

impl PrettySlot {
    /// Whether this shows the slot.
    pub open spec fn shows(&self, m: SlotView) -> bool {
        &&& self.slot == m.slot
        &&& self.parent == m.parent
        &&& geyser::slot_status_of(m.status) is Some
        &&& self.status == status_name(geyser::slot_status_of(m.status)->Some_0)
        &&& geyser::text_opt(self.dead_error) == m.dead_error
    }
}

/// The slot as it is shown.
pub fn create_pretty_slot(m: SubscribeUpdateSlot) -> (r: Result<PrettySlot, StreamError>)
    ensures
        match geyser::slot_status_of(m.status) {
            None => r is Err && r->Err_0 == StreamError::InvalidStatus,
            Some(_) => r is Ok && r->Ok_0.shows(m@),
        },
{
    let status = match SlotStatus::from_number(m.status) {
        Some(SlotStatus::SlotProcessed) => "SLOT_PROCESSED",
        Some(SlotStatus::SlotConfirmed) => "SLOT_CONFIRMED",
        Some(SlotStatus::SlotFinalized) => "SLOT_FINALIZED",
        Some(SlotStatus::SlotFirstShredReceived) => "SLOT_FIRST_SHRED_RECEIVED",
        Some(SlotStatus::SlotCompleted) => "SLOT_COMPLETED",
        Some(SlotStatus::SlotCreatedBank) => "SLOT_CREATED_BANK",
        Some(SlotStatus::SlotDead) => "SLOT_DEAD",
        None => return Err(StreamError::InvalidStatus),
    };
    Ok(PrettySlot { slot: m.slot, parent: m.parent, status, dead_error: m.dead_error })
}

/// A transaction as it is shown: its signature, and what the types of the validator make of the rest of
/// it, encoded.
#[derive(Debug)]
pub struct PrettyTransaction {
    pub signature: String,
    pub is_vote: bool,
    pub transaction: Vec<u8>,
    pub meta: Option<Vec<u8>>,
}

impl PrettyTransaction {
    /// Whether this shows the transaction.
    pub open spec fn shows(&self, m: TransactionInfoView, readings: Readings) -> bool {
        &&& self.signature@ == text::base58(m.signature)
        &&& self.is_vote == m.is_vote
        &&& match readings.transaction(m) {
            Ok(TransactionView::Complete(t)) => {
                &&& self.transaction@ == t.transaction
                &&& geyser::bytes_opt(self.meta) == Some(t.meta)
            },
            Ok(TransactionView::MissingMetadata(t)) => self.transaction@ == t && self.meta is None,
            Err(_) => false,
        }
    }
}

/// Why the transaction cannot be shown, where it cannot.
pub open spec fn transaction_failure(m: TransactionInfoView, readings: Readings) -> Option<
    StreamError,
> {
    if m.signature.len() != 64 {
        Some(StreamError::InvalidSignature)
    } else if readings.transaction(m) is Err {
        Some(StreamError::InvalidTransaction)
    } else {
        None
    }
}

/// The transaction as it is shown.
pub fn create_pretty_transaction(tx: SubscribeUpdateTransactionInfo, readings: &Readings) -> (r: Result<
    PrettyTransaction,
    StreamError,
>)
    ensures
        match transaction_failure(tx@, *readings) {
            Some(e) => r is Err && r->Err_0 == e,
            None => r is Ok && r->Ok_0.shows(tx@, *readings),
        },
{
    let signature = match show_signature(tx.signature.as_slice()) {
        Some(signature) => signature,
        None => return Err(StreamError::InvalidSignature),
    };
    match readings.read_transaction(&tx) {
        Ok(TransactionWithStatusMeta::Complete(t)) => Ok(
            PrettyTransaction {
                signature,
                is_vote: tx.is_vote,
                transaction: t.transaction,
                meta: Some(t.meta),
            },
        ),
        Ok(TransactionWithStatusMeta::MissingMetadata(transaction)) => Ok(
            PrettyTransaction { signature, is_vote: tx.is_vote, transaction, meta: None },
        ),
        Err(_) => Err(StreamError::InvalidTransaction),
    }
}

/// How a transaction went, as it is shown. The error is what the types of the validator make of it,
/// serialized.
#[derive(Debug)]
pub struct PrettyTransactionStatus {
    pub slot: u64,
    pub signature: String,
    pub is_vote: bool,
    pub index: u64,
    pub err: Option<Vec<u8>>,
}

impl PrettyTransactionStatus {
    /// Whether this shows how the transaction went.
    pub open spec fn shows(&self, m: TransactionStatusView, readings: Readings) -> bool {
        &&& self.slot == m.slot
        &&& self.signature@ == text::base58(m.signature)
        &&& self.is_vote == m.is_vote
        &&& self.index == m.index
        &&& geyser::bytes_opt(self.err) == match m.err {
            Some(err) => readings.error(err),
            None => None,
        }
    }
}

/// Why how the transaction went cannot be shown, where it cannot.
pub open spec fn status_failure(m: TransactionStatusView, readings: Readings) -> Option<StreamError> {
    if m.signature.len() != 64 {
        Some(StreamError::InvalidSignature)
    } else {
        match m.err {
            Some(err) => if readings.error(err) is None {
                Some(StreamError::InvalidError)
            } else {
                None
            },
            None => None,
        }
    }
}

/// How the transaction went, as it is shown.
pub fn create_pretty_transaction_status(
    m: SubscribeUpdateTransactionStatus,
    readings: &Readings,
) -> (r: Result<PrettyTransactionStatus, StreamError>)
    ensures
        match status_failure(m@, *readings) {
            Some(e) => r is Err && r->Err_0 == e,
            None => r is Ok && r->Ok_0.shows(m@, *readings),
        },
{
    let signature = match show_signature(m.signature.as_slice()) {
        Some(signature) => signature,
        None => return Err(StreamError::InvalidSignature),
    };
    let err: Option<Vec<u8>> = match &m.err {
        Some(error) => match readings.read_error(error.err.as_slice()) {
            Some(err) => Some(err),
            None => return Err(StreamError::InvalidError),
        },
        None => None,
    };
    Ok(
        PrettyTransactionStatus {
            slot: m.slot,
            signature,
            is_vote: m.is_vote,
            index: m.index,
            err,
        },
    )
}

/// An entry as it is shown.
#[derive(Debug)]
pub struct PrettyEntry {
    pub slot: u64,
    pub index: u64,
    pub num_hashes: u64,
    pub hash: String,
    pub executed_transaction_count: u64,
    pub starting_transaction_index: u64,
}

impl PrettyEntry {
    /// Whether this shows the entry.
    pub open spec fn shows(&self, m: EntryView) -> bool {
        &&& self.slot == m.slot
        &&& self.index == m.index
        &&& self.num_hashes == m.num_hashes
        &&& self.hash@ == text::base58(m.hash)
        &&& self.executed_transaction_count == m.executed_transaction_count
        &&& self.starting_transaction_index == m.starting_transaction_index
    }
}

/// Why the entry cannot be shown, where it cannot.
pub open spec fn entry_failure(m: EntryView) -> Option<StreamError> {
    if m.hash.len() != 32 {
        Some(StreamError::InvalidEntryHash)
    } else {
        None
    }
}

/// The entry as it is shown.
pub fn create_pretty_entry(msg: &SubscribeUpdateEntry) -> (r: Result<PrettyEntry, StreamError>)
    ensures
        match entry_failure(msg@) {
            Some(e) => r is Err && r->Err_0 == e,
            None => r is Ok && r->Ok_0.shows(msg@),
        },
{
    match create_pretty_hash(msg.hash.as_slice()) {
        Some(hash) => Ok(
            PrettyEntry {
                slot: msg.slot,
                index: msg.index,
                num_hashes: msg.num_hashes,
                hash,
                executed_transaction_count: msg.executed_transaction_count,
                starting_transaction_index: msg.starting_transaction_index,
            },
        ),
        None => Err(StreamError::InvalidEntryHash),
    }
}

/// The metadata of a block as it is shown.
#[derive(Debug)]
pub struct PrettyBlockMeta {
    pub slot: u64,
    pub blockhash: String,
    pub rewards: Option<Vec<Reward>>,
    pub block_time: Option<i64>,
    pub block_height: Option<u64>,
    pub parent_slot: u64,
    pub parent_blockhash: String,
    pub executed_transaction_count: u64,
    pub entries_count: u64,
}

/// What the types of the validator make of the rewards, where there are any.
pub open spec fn shown_rewards(rewards: Option<Seq<u8>>, readings: Readings) -> Result<
    Option<Seq<RewardView>>,
    StreamError,
> {
    match rewards {
        Some(bytes) => match readings.reward_list(bytes) {
            Some(told) => match block::prost_rewards(told) {
                Some((rewards, _)) => Ok(Some(rewards)),
                None => Err(StreamError::InvalidRewards),
            },
            None => Err(StreamError::InvalidRewards),
        },
        None => Ok(None),
    }
}

impl PrettyBlockMeta {
    /// Whether this shows the metadata, with the rewards.
    pub open spec fn shows(&self, m: BlockMetaView, rewards: Option<Seq<RewardView>>) -> bool {
        &&& self.slot == m.slot
        &&& self.blockhash@ == m.blockhash
        &&& rewards == match self.rewards {
            Some(rewards) => Some(parser::views(rewards@)),
            None => None,
        }
        &&& self.block_time == m.block_time
        &&& self.block_height == m.block_height
        &&& self.parent_slot == m.parent_slot
        &&& self.parent_blockhash@ == m.parent_blockhash
        &&& self.executed_transaction_count == m.executed_transaction_count
        &&& self.entries_count == m.entries_count
    }
}

/// The metadata of a block as it is shown.
pub fn create_pretty_blockmeta(msg: SubscribeUpdateBlockMeta, readings: &Readings) -> (r: Result<
    PrettyBlockMeta,
    StreamError,
>)
    ensures
        match shown_rewards(msg@.rewards, *readings) {
            Err(e) => r is Err && r->Err_0 == e,
            Ok(rewards) => r is Ok && r->Ok_0.shows(msg@, rewards),
        },
{
    let rewards = match &msg.rewards {
        Some(bytes) => match readings.read_reward_list(bytes.as_slice()) {
            Some(told) => match block::decode_rewards(told.as_slice()) {
                Ok((rewards, _)) => Some(rewards),
                Err(_) => return Err(StreamError::InvalidRewards),
            },
            None => return Err(StreamError::InvalidRewards),
        },
        None => None,
    };
    Ok(
        PrettyBlockMeta {
            slot: msg.slot,
            blockhash: msg.blockhash,
            rewards,
            block_time: msg.block_time,
            block_height: msg.block_height,
            parent_slot: msg.parent_slot,
            parent_blockhash: msg.parent_blockhash,
            executed_transaction_count: msg.executed_transaction_count,
            entries_count: msg.entries_count,
        },
    )
}

/// Why the first of the items that cannot be shown cannot, where there is one.
pub open spec fn first_failure<V>(items: Seq<V>, failure: spec_fn(V) -> Option<StreamError>) -> Option<
    StreamError,
>
    decreases items.len(),
{
    if items.len() == 0 {
        None
    } else {
        match first_failure(items.drop_last(), failure) {
            Some(e) => Some(e),
            None => failure(items.last()),
        }
    }
}

proof fn lemma_first_failure<V>(items: Seq<V>, failure: spec_fn(V) -> Option<StreamError>, i: int)
    requires
        0 <= i <= items.len(),
        first_failure(items.take(i), failure) is Some,
    ensures
        first_failure(items, failure) == first_failure(items.take(i), failure),
    decreases items.len() - i,
{
    if i < items.len() {
        assert(items.take(i + 1).drop_last() =~= items.take(i));
        lemma_first_failure(items, failure, i + 1);
    } else {
        assert(items.take(i) =~= items);
    }
}

/// Whether these show the transactions.
pub open spec fn shows_transactions(
    shown: Seq<PrettyTransaction>,
    ms: Seq<TransactionInfoView>,
    readings: Readings,
) -> bool {
    &&& shown.len() == ms.len()
    &&& forall|i: int| 0 <= i < ms.len() ==> (#[trigger] shown[i]).shows(ms[i], readings)
}

/// The transactions as they are shown.
fn pretty_transactions(
    items: Vec<SubscribeUpdateTransactionInfo>,
    readings: &Readings,
) -> (r: Result<Vec<PrettyTransaction>, StreamError>)
    ensures
        match first_failure(
            parser::views(items@),
            |m: TransactionInfoView| transaction_failure(m, *readings),
        ) {
            Some(e) => r is Err && r->Err_0 == e,
            None => r is Ok && shows_transactions(
                r->Ok_0@,
                parser::views(items@),
                *readings,
            ),
        },
{
    let ghost ms = parser::views(items@);
    let ghost f = |m: TransactionInfoView| transaction_failure(m, *readings);
    let mut shown: Vec<PrettyTransaction> = Vec::new();
    assert(ms.take(0) =~= Seq::empty());
    for item in iter: items
        invariant
            iter.seq() == items@,
            ms == parser::views(items@),
            f == (|m: TransactionInfoView| transaction_failure(m, *readings)),
            shown@.len() == iter.index(),
            first_failure(ms.take(iter.index() as int), f) is None,
            forall|j: int| 0 <= j < iter.index() ==> (#[trigger] shown@[j]).shows(ms[j], *readings),
    {
        let ghost k = iter.index() as int;
        proof {
            assert(ms.take(k + 1).drop_last() =~= ms.take(k));
            assert(ms.take(k + 1).last() == item@);
        }
        match create_pretty_transaction(item, readings) {
            Ok(one) => {
                shown.push(one);
            },
            Err(e) => {
                proof {
                    lemma_first_failure(ms, f, k + 1);
                }
                return Err(e);
            },
        }
    }
    assert(ms.take(ms.len() as int) =~= ms);
    Ok(shown)
}

/// Whether these show the accounts.
pub open spec fn shows_accounts(shown: Seq<PrettyAccount>, ms: Seq<AccountInfoView>) -> bool {
    &&& shown.len() == ms.len()
    &&& forall|i: int| 0 <= i < ms.len() ==> (#[trigger] shown[i]).shows(ms[i])
}

/// The accounts as they are shown.
fn pretty_accounts(items: Vec<SubscribeUpdateAccountInfo>) -> (r: Result<
    Vec<PrettyAccount>,
    StreamError,
>)
    ensures
        match first_failure(parser::views(items@), |m: AccountInfoView| account_failure(m)) {
            Some(e) => r is Err && r->Err_0 == e,
            None => r is Ok && shows_accounts(r->Ok_0@, parser::views(items@)),
        },
{
    let ghost ms = parser::views(items@);
    let ghost f = |m: AccountInfoView| account_failure(m);
    let mut shown: Vec<PrettyAccount> = Vec::new();
    assert(ms.take(0) =~= Seq::empty());
    for item in iter: items
        invariant
            iter.seq() == items@,
            ms == parser::views(items@),
            f == (|m: AccountInfoView| account_failure(m)),
            shown@.len() == iter.index(),
            first_failure(ms.take(iter.index() as int), f) is None,
            forall|j: int| 0 <= j < iter.index() ==> (#[trigger] shown@[j]).shows(ms[j]),
    {
        let ghost k = iter.index() as int;
        proof {
            assert(ms.take(k + 1).drop_last() =~= ms.take(k));
            assert(ms.take(k + 1).last() == item@);
        }
        match create_pretty_account(&item) {
            Ok(one) => {
                shown.push(one);
            },
            Err(e) => {
                proof {
                    lemma_first_failure(ms, f, k + 1);
                }
                return Err(e);
            },
        }
    }
    assert(ms.take(ms.len() as int) =~= ms);
    Ok(shown)
}

/// Whether these show the entries.
pub open spec fn shows_entries(shown: Seq<PrettyEntry>, ms: Seq<EntryView>) -> bool {
    &&& shown.len() == ms.len()
    &&& forall|i: int| 0 <= i < ms.len() ==> (#[trigger] shown[i]).shows(ms[i])
}

/// The entries as they are shown.
fn pretty_entries(items: Vec<SubscribeUpdateEntry>) -> (r: Result<Vec<PrettyEntry>, StreamError>)
    ensures
        match first_failure(parser::views(items@), |m: EntryView| entry_failure(m)) {
            Some(e) => r is Err && r->Err_0 == e,
            None => r is Ok && shows_entries(r->Ok_0@, parser::views(items@)),
        },
{
    let ghost ms = parser::views(items@);
    let ghost f = |m: EntryView| entry_failure(m);
    let mut shown: Vec<PrettyEntry> = Vec::new();
    assert(ms.take(0) =~= Seq::empty());
    for item in iter: items
        invariant
            iter.seq() == items@,
            ms == parser::views(items@),
            f == (|m: EntryView| entry_failure(m)),
            shown@.len() == iter.index(),
            first_failure(ms.take(iter.index() as int), f) is None,
            forall|j: int| 0 <= j < iter.index() ==> (#[trigger] shown@[j]).shows(ms[j]),
    {
        let ghost k = iter.index() as int;
        proof {
            assert(ms.take(k + 1).drop_last() =~= ms.take(k));
            assert(ms.take(k + 1).last() == item@);
        }
        match create_pretty_entry(&item) {
            Ok(one) => {
                shown.push(one);
            },
            Err(e) => {
                proof {
                    lemma_first_failure(ms, f, k + 1);
                }
                return Err(e);
            },
        }
    }
    assert(ms.take(ms.len() as int) =~= ms);
    Ok(shown)
}

/// A block as it is shown.
#[derive(Debug)]
pub struct PrettyBlock {
    pub meta: PrettyBlockMeta,
    pub transactions: Vec<PrettyTransaction>,
    pub updated_account_count: u64,
    pub accounts: Vec<PrettyAccount>,
    pub entries: Vec<PrettyEntry>,
}

/// The transactions of the block.
pub open spec fn block_transactions(m: BlockView) -> Result<Seq<TransactionInfoView>, ParseFailure> {
    parser::all_ok(
        m.transactions.map_values(
            |part: Seq<u8>| parser::decoded(geyser::prost_transaction_info(part)),
        ),
    )
}

/// The accounts of the block.
pub open spec fn block_accounts(m: BlockView) -> Result<Seq<AccountInfoView>, ParseFailure> {
    parser::all_ok(
        m.accounts.map_values(|part: Seq<u8>| parser::decoded(geyser::prost_account_info(part))),
    )
}

/// The entries of the block.
pub open spec fn block_entries(m: BlockView) -> Result<Seq<EntryView>, ParseFailure> {
    parser::all_ok(
        m.entries.map_values(|part: Seq<u8>| parser::decoded(geyser::prost_entry(part))),
    )
}

/// Why the block cannot be shown, where it cannot.
pub open spec fn block_failure(m: BlockView, readings: Readings) -> Option<StreamError> {
    match (block_transactions(m), block_accounts(m), block_entries(m)) {
        (Ok(transactions), Ok(accounts), Ok(entries)) => match shown_rewards(
            m.meta.rewards,
            readings,
        ) {
            Err(e) => Some(e),
            Ok(_) => match first_failure(
                transactions,
                |m: TransactionInfoView| transaction_failure(m, readings),
            ) {
                Some(e) => Some(e),
                None => match first_failure(accounts, |m: AccountInfoView| account_failure(m)) {
                    Some(e) => Some(e),
                    None => first_failure(entries, |m: EntryView| entry_failure(m)),
                },
            },
        },
        _ => Some(StreamError::Malformed),
    }
}

impl PrettyBlock {
    /// Whether this shows the block.
    pub open spec fn shows(&self, m: BlockView, readings: Readings) -> bool {
        &&& shown_rewards(m.meta.rewards, readings) is Ok
        &&& self.meta.shows(m.meta, shown_rewards(m.meta.rewards, readings)->Ok_0)
        &&& block_transactions(m) is Ok
        &&& shows_transactions(self.transactions@, block_transactions(m)->Ok_0, readings)
        &&& self.updated_account_count == m.updated_account_count
        &&& block_accounts(m) is Ok
        &&& shows_accounts(self.accounts@, block_accounts(m)->Ok_0)
        &&& block_entries(m) is Ok
        &&& shows_entries(self.entries@, block_entries(m)->Ok_0)
    }
}

/// The block as it is shown.
pub fn create_pretty_block(msg: SubscribeUpdateBlock, readings: &Readings) -> (r: Result<
    PrettyBlock,
    StreamError,
>)
    ensures
        match block_failure(msg@, *readings) {
            Some(e) => r is Err && r->Err_0 == e,
            None => r is Ok && r->Ok_0.shows(msg@, *readings),
        },
{
    let transactions = match parser::decode_transactions(&msg.transactions) {
        Ok(transactions) => transactions,
        Err(_) => return Err(StreamError::Malformed),
    };
    let accounts = match parser::decode_accounts(&msg.accounts) {
        Ok(accounts) => accounts,
        Err(_) => return Err(StreamError::Malformed),
    };
    let entries = match parser::decode_entries(&msg.entries) {
        Ok(entries) => entries,
        Err(_) => return Err(StreamError::Malformed),
    };
    let meta = match create_pretty_blockmeta(msg.meta, readings) {
        Ok(meta) => meta,
        Err(e) => return Err(e),
    };
    let transactions = match pretty_transactions(transactions, readings) {
        Ok(transactions) => transactions,
        Err(e) => return Err(e),
    };
    let accounts = match pretty_accounts(accounts) {
        Ok(accounts) => accounts,
        Err(e) => return Err(e),
    };
    let entries = match pretty_entries(entries) {
        Ok(entries) => entries,
        Err(e) => return Err(e),
    };
    Ok(
        PrettyBlock {
            meta,
            transactions,
            updated_account_count: msg.updated_account_count,
            accounts,
            entries,
        },
    )
}

// ---------------------------------------------------------------------------------------------
// Updates that are none of the stream
// ---------------------------------------------------------------------------------------------

/// A transaction before replay as it is shown. The transaction itself is what the types of the validator
/// make of it, encoded.
#[derive(Debug)]
pub struct PrettyDeshredTransaction {
    pub signature: String,
    pub is_vote: bool,
    pub transaction: Vec<u8>,
    pub loaded_writable_addresses: Vec<String>,
    pub loaded_readonly_addresses: Vec<String>,
    pub completed_data_set_starting_shred_index: u32,
    pub completed_data_set_ending_shred_index_exclusive: u32,
}

/// Whether these show the keys.
pub open spec fn shows_keys(shown: Seq<String>, keys: Seq<Seq<u8>>) -> bool {
    &&& shown.len() == keys.len()
    &&& forall|i: int| 0 <= i < keys.len() ==> (#[trigger] shown[i])@ == text::base58(keys[i])
}

/// Whether each of the keys is 32 bytes long.
pub open spec fn all_keys(keys: Seq<Seq<u8>>) -> bool {
    forall|i: int| 0 <= i < keys.len() ==> (#[trigger] keys[i]).len() == 32
}

/// The keys as they are shown.
fn show_keys(keys: &Vec<Vec<u8>>) -> (r: Option<Vec<String>>)
    ensures
        r is Some <==> all_keys(geyser::bytes_each(keys@)),
        r is Some ==> shows_keys(r->Some_0@, geyser::bytes_each(keys@)),
{
    let ghost all = geyser::bytes_each(keys@);
    let mut shown: Vec<String> = Vec::new();
    let mut i: usize = 0;
    while i < keys.len()
        invariant
            i <= keys@.len(),
            all == geyser::bytes_each(keys@),
            shown@.len() == i,
            forall|j: int|
                0 <= j < i ==> (#[trigger] all[j]).len() == 32 && shown@[j]@ == text::base58(all[j]),
        decreases keys@.len() - i,
    {
        match show_key(keys[i].as_slice()) {
            Some(key) => {
                shown.push(key);
            },
            None => {
                assert(all[i as int].len() != 32);
                return None;
            },
        }
        i = i + 1;
    }
    proof {
        assert forall|j: int| 0 <= j < all.len() implies (#[trigger] shown@[j])@ == text::base58(
            all[j],
        ) by {
            assert(all[j].len() == 32);
        }
    }
    Some(shown)
}

impl PrettyDeshredTransaction {
    /// Whether this shows the transaction.
    pub open spec fn shows(&self, m: DeshredInfoView, readings: Readings) -> bool {
        &&& self.signature@ == text::base58(m.signature)
        &&& self.is_vote == m.is_vote
        &&& m.transaction is Some
        &&& readings.body(m.transaction->Some_0) == Some(self.transaction@)
        &&& shows_keys(self.loaded_writable_addresses@, m.loaded_writable_addresses)
        &&& shows_keys(self.loaded_readonly_addresses@, m.loaded_readonly_addresses)
        &&& self.completed_data_set_starting_shred_index
            == m.completed_data_set_starting_shred_index
        &&& self.completed_data_set_ending_shred_index_exclusive
            == m.completed_data_set_ending_shred_index_exclusive
    }
}

/// Why the transaction cannot be shown, where it cannot.
pub open spec fn deshred_failure(m: DeshredInfoView, readings: Readings) -> Option<StreamError> {
    if m.signature.len() != 64 {
        Some(StreamError::InvalidSignature)
    } else if m.transaction is None {
        Some(StreamError::MissingTransaction)
    } else if readings.body(m.transaction->Some_0) is None {
        Some(StreamError::InvalidBody)
    } else if !all_keys(m.loaded_writable_addresses) || !all_keys(m.loaded_readonly_addresses) {
        Some(StreamError::InvalidPubkey)
    } else {
        None
    }
}

/// The transaction before replay as it is shown.
pub fn create_pretty_deshred_transaction(
    tx: SubscribeUpdateDeshredTransactionInfo,
    readings: &Readings,
) -> (r: Result<PrettyDeshredTransaction, StreamError>)
    ensures
        match deshred_failure(tx@, *readings) {
            Some(e) => r is Err && r->Err_0 == e,
            None => r is Ok && r->Ok_0.shows(tx@, *readings),
        },
{
    let signature = match show_signature(tx.signature.as_slice()) {
        Some(signature) => signature,
        None => return Err(StreamError::InvalidSignature),
    };
    let transaction = match &tx.transaction {
        Some(transaction) => match readings.read_body(transaction.as_slice()) {
            Some(transaction) => transaction,
            None => return Err(StreamError::InvalidBody),
        },
        None => return Err(StreamError::MissingTransaction),
    };
    let loaded_writable_addresses = match show_keys(&tx.loaded_writable_addresses) {
        Some(keys) => keys,
        None => return Err(StreamError::InvalidPubkey),
    };
    let loaded_readonly_addresses = match show_keys(&tx.loaded_readonly_addresses) {
        Some(keys) => keys,
        None => return Err(StreamError::InvalidPubkey),
    };
    Ok(
        PrettyDeshredTransaction {
            signature,
            is_vote: tx.is_vote,
            transaction,
            loaded_writable_addresses,
            loaded_readonly_addresses,
            completed_data_set_starting_shred_index: tx.completed_data_set_starting_shred_index,
            completed_data_set_ending_shred_index_exclusive:
                tx.completed_data_set_ending_shred_index_exclusive,
        },
    )
}

/// A node as it is shown: its key and its version as texts, and what else is known of it.
#[derive(Debug)]
pub struct PrettyContactInfo {
    pub pubkey: String,
    pub version: String,
    pub node: SubscribeUpdateContactInfoNode,
}

/// A version as it is written.
pub open spec fn version_text(major: u32, minor: u32, patch: u32) -> Seq<char> {
    text::decimal(major as nat) + "."@ + text::decimal(minor as nat) + "."@ + text::decimal(
        patch as nat,
    )
}

/// The node as it is shown.
pub fn create_pretty_contact_info(msg: SubscribeUpdateContactInfoNode) -> (r: Result<
    PrettyContactInfo,
    StreamError,
>)
    ensures
        if msg.pubkey@.len() != 32 {
            r is Err && r->Err_0 == StreamError::InvalidPubkey
        } else {
            &&& r is Ok
            &&& r->Ok_0.pubkey@ == text::base58(msg.pubkey@)
            &&& r->Ok_0.version@ == version_text(
                msg.version_major,
                msg.version_minor,
                msg.version_patch,
            )
            &&& r->Ok_0.node == msg
        },
{
    let pubkey = match show_key(msg.pubkey.as_slice()) {
        Some(pubkey) => pubkey,
        None => return Err(StreamError::InvalidPubkey),
    };
    let mut version = text::decimal_text(msg.version_major as u64);
    version.append(".");
    version.append(text::decimal_text(msg.version_minor as u64).as_str());
    version.append(".");
    version.append(text::decimal_text(msg.version_patch as u64).as_str());
    Ok(PrettyContactInfo { pubkey, version, node: msg })
}

/// A block footer as it is shown.
#[derive(Debug)]
pub struct PrettyBlockFooter {
    pub slot: u64,
    pub bank_id: u64,
    pub version: u32,
    pub bank_hash: String,
    pub block_producer_time_nanos: u64,
    pub block_user_agent: String,
    pub footer: String,
}

impl PrettyBlockFooter {
    /// Whether this shows the block footer.
    pub open spec fn shows(&self, m: FooterView) -> bool {
        &&& self.slot == m.slot
        &&& self.bank_id == m.bank_id
        &&& self.version == m.version
        &&& self.bank_hash@ == text::base58(m.bank_hash)
        &&& self.block_producer_time_nanos == m.block_producer_time_nanos
        &&& self.block_user_agent@ == text::utf8_lossy(m.block_user_agent)
        &&& self.footer@ == text::hex(m.footer)
    }
}

/// The block footer as it is shown.
pub fn create_pretty_block_footer(msg: &SubscribeUpdateBlockFooter) -> (r: Result<
    PrettyBlockFooter,
    StreamError,
>)
    ensures
        if msg.bank_hash@.len() != 32 {
            r is Err && r->Err_0 == StreamError::InvalidBankHash
        } else {
            r is Ok && r->Ok_0.shows(msg@)
        },
{
    match create_pretty_hash(msg.bank_hash.as_slice()) {
        Some(bank_hash) => Ok(
            PrettyBlockFooter {
                slot: msg.slot,
                bank_id: msg.bank_id,
                version: msg.version,
                bank_hash,
                block_producer_time_nanos: msg.block_producer_time_nanos,
                block_user_agent: text::lossy_text(msg.block_user_agent.as_slice()),
                footer: text::hex_text(msg.footer.as_slice()),
            },
        ),
        None => Err(StreamError::InvalidBankHash),
    }
}

/// An update that is none of the stream as it is shown.
#[derive(Debug)]
pub enum PrettyRichat {
    DeshredTransaction { transaction: PrettyDeshredTransaction, slot: u64 },
    ContactInfo(PrettyContactInfo),
    ContactInfoRemoved { pubkey: String },
    BlockFooter(PrettyBlockFooter),
    EntryUpdateParent {
        slot: u64,
        cleared_bank_id: u64,
        parent_slot: u64,
        parent_block_id: String,
    },
    DeshredUpdateParent {
        slot: u64,
        update_parent_fec_set_index: u32,
        parent_slot: u64,
        parent_block_id: String,
    },
}

/// What the kind of the update is called.
pub open spec fn richat_kind(m: RichatView) -> &'static str {
    match m {
        RichatView::DeshredTransaction(_) => "deshredTransaction",
        RichatView::ContactInfo(_) => "contactInfo",
        RichatView::ContactInfoRemoved { .. } => "contactInfoRemoved",
        RichatView::BlockFooter(_) => "blockFooter",
        RichatView::EntryUpdateParent { .. } => "entryUpdateParent",
        RichatView::DeshredUpdateParent { .. } => "deshredUpdateParent",
    }
}

/// Why the update cannot be shown, where it cannot.
pub open spec fn richat_failure(m: RichatView, readings: Readings) -> Option<StreamError> {
    match m {
        RichatView::DeshredTransaction(m) => match m.transaction {
            Some(info) => deshred_failure(info, readings),
            None => Some(StreamError::NoTransaction),
        },
        RichatView::ContactInfo(m) => if m.pubkey.len() != 32 {
            Some(StreamError::InvalidPubkey)
        } else {
            None
        },
        RichatView::ContactInfoRemoved { pubkey } => if pubkey.len() != 32 {
            Some(StreamError::InvalidPubkey)
        } else {
            None
        },
        RichatView::BlockFooter(m) => if m.bank_hash.len() != 32 {
            Some(StreamError::InvalidBankHash)
        } else {
            None
        },
        RichatView::EntryUpdateParent { parent_block_id, .. } => if parent_block_id.len() != 32 {
            Some(StreamError::InvalidParentBlockId)
        } else {
            None
        },
        RichatView::DeshredUpdateParent { parent_block_id, .. } => if parent_block_id.len() != 32 {
            Some(StreamError::InvalidParentBlockId)
        } else {
            None
        },
    }
}

impl PrettyRichat {
    /// Whether this shows the update.
    pub open spec fn shows(&self, m: RichatView, readings: Readings) -> bool {
        match (self, m) {
            (
                PrettyRichat::DeshredTransaction { transaction, slot },
                RichatView::DeshredTransaction(m),
            ) => m.transaction is Some && transaction.shows(m.transaction->Some_0, readings)
                && *slot == m.slot,
            (PrettyRichat::ContactInfo(shown), RichatView::ContactInfo(m)) => {
                &&& shown.pubkey@ == text::base58(m.pubkey)
                &&& shown.version@ == version_text(
                    m.version_major,
                    m.version_minor,
                    m.version_patch,
                )
                &&& shown.node@ == m
            },
            (
                PrettyRichat::ContactInfoRemoved { pubkey },
                RichatView::ContactInfoRemoved { pubkey: key },
            ) => pubkey@ == text::base58(key),
            (PrettyRichat::BlockFooter(shown), RichatView::BlockFooter(m)) => shown.shows(m),
            (
                PrettyRichat::EntryUpdateParent {
                    slot,
                    cleared_bank_id,
                    parent_slot,
                    parent_block_id,
                },
                RichatView::EntryUpdateParent {
                    slot: s,
                    cleared_bank_id: c,
                    parent_slot: p,
                    parent_block_id: id,
                },
            ) => *slot == s && *cleared_bank_id == c && *parent_slot == p && parent_block_id@
                == text::base58(id),
            (
                PrettyRichat::DeshredUpdateParent {
                    slot,
                    update_parent_fec_set_index,
                    parent_slot,
                    parent_block_id,
                },
                RichatView::DeshredUpdateParent {
                    slot: s,
                    update_parent_fec_set_index: u,
                    parent_slot: p,
                    parent_block_id: id,
                },
            ) => *slot == s && *update_parent_fec_set_index == u && *parent_slot == p
                && parent_block_id@ == text::base58(id),
            _ => false,
        }
    }
}

/// The update that is none of the stream as it is shown, and what its kind is called.
pub fn create_pretty_richat(update: UpdateOneofRichat, readings: &Readings) -> (r: Result<
    (&'static str, PrettyRichat),
    StreamError,
>)
    ensures
        match richat_failure(update@, *readings) {
            Some(e) => r is Err && r->Err_0 == e,
            None => r is Ok && r->Ok_0.0 == richat_kind(update@) && r->Ok_0.1.shows(
                update@,
                *readings,
            ),
        },
{
    match update {
        UpdateOneofRichat::DeshredTransaction(m) => match m.transaction {
            Some(tx) => match create_pretty_deshred_transaction(tx, readings) {
                Ok(transaction) => Ok(
                    (
                        "deshredTransaction",
                        PrettyRichat::DeshredTransaction { transaction, slot: m.slot },
                    ),
                ),
                Err(e) => Err(e),
            },
            None => Err(StreamError::NoTransaction),
        },
        UpdateOneofRichat::ContactInfo(m) => match create_pretty_contact_info(m) {
            Ok(shown) => Ok(("contactInfo", PrettyRichat::ContactInfo(shown))),
            Err(e) => Err(e),
        },
        UpdateOneofRichat::ContactInfoRemoved { pubkey } => match show_key(pubkey.as_slice()) {
            Some(pubkey) => Ok(("contactInfoRemoved", PrettyRichat::ContactInfoRemoved { pubkey })),
            None => Err(StreamError::InvalidPubkey),
        },
        UpdateOneofRichat::BlockFooter(m) => match create_pretty_block_footer(&m) {
            Ok(shown) => Ok(("blockFooter", PrettyRichat::BlockFooter(shown))),
            Err(e) => Err(e),
        },
        UpdateOneofRichat::EntryUpdateParent(m) => match create_pretty_hash(
            m.parent_block_id.as_slice(),
        ) {
            Some(parent_block_id) => Ok(
                (
                    "entryUpdateParent",
                    PrettyRichat::EntryUpdateParent {
                        slot: m.slot,
                        cleared_bank_id: m.cleared_bank_id,
                        parent_slot: m.parent_slot,
                        parent_block_id,
                    },
                ),
            ),
            None => Err(StreamError::InvalidParentBlockId),
        },
        UpdateOneofRichat::DeshredUpdateParent(m) => match create_pretty_hash(
            m.parent_block_id.as_slice(),
        ) {
            Some(parent_block_id) => Ok(
                (
                    "deshredUpdateParent",
                    PrettyRichat::DeshredUpdateParent {
                        slot: m.slot,
                        update_parent_fec_set_index: m.update_parent_fec_set_index,
                        parent_slot: m.parent_slot,
                        parent_block_id,
                    },
                ),
            ),
            None => Err(StreamError::InvalidParentBlockId),
        },
    }
}

} // verus!
