//! Blocks: the messages of a slot, put together.
use std::sync::Arc;

use prost::Message as _;
use vstd::prelude::*;
use yellowstone_grpc_proto::solana::storage::confirmed_block;

use crate::account;
use crate::account::{MessageAccount, MessageAccountView};
use crate::geyser;
use crate::geyser::{SubscribeUpdateTransactionInfo, TransactionInfoView, TransactionStatusMeta};
use crate::message;
use crate::message::{
    Message, MessageBlock, MessageBlockCreatedAt, MessageBlockMeta, MessageBlockView, MessageEntry,
    MessageEntryView, MessageParseError, MessageParserEncoding, MessageTransaction,
    MessageTransactionView, MessageView,
};
use crate::parser;
use crate::pubkey::Slot;
use crate::readings::{
    Readings, TransactionView, TransactionWithStatusMeta, VersionedTransactionWithStatusMeta,
    VersionedView,
};

verus! {

// ---------------------------------------------------------------------------------------------
// Making blocks
// ---------------------------------------------------------------------------------------------

impl MessageBlockView {
    /// Which parser made the block.
    pub open spec fn encoding(self) -> MessageParserEncoding {
        self.created_at.parser()
    }

    /// Whether all parts of the block were made by the parser that made the block.
    pub open spec fn uniform(self) -> bool {
        &&& self.block_meta.encoding() == self.encoding()
        &&& forall|i: int|
            0 <= i < self.accounts.len() ==> (#[trigger] self.accounts[i]).encoding()
                == self.encoding()
        &&& forall|i: int|
            0 <= i < self.transactions.len() ==> (#[trigger] self.transactions[i]).encoding()
                == self.encoding()
        &&& forall|i: int|
            0 <= i < self.entries.len() ==> (#[trigger] self.entries[i]).encoding()
                == self.encoding()
    }

    /// The slot of the block.
    pub open spec fn slot(self) -> Slot {
        self.block_meta.slot()
    }

    /// What the block costs to keep, the sets of keys of its transactions not counted.
    pub open spec fn base_size(self) -> nat {
        total(self.accounts.map_values(|m: MessageAccountView| m.size())) + total(
            self.transactions.map_values(|m: MessageTransactionView| m.base_size()),
        ) + total(self.entries.map_values(|m: MessageEntryView| m.size())) + self.block_meta.size()
    }

    /// What the block costs to keep, where the set of keys of each transaction has room for the
    /// number at its place in `capacities`: what its parts cost.
    pub open spec fn size_with(self, capacities: Seq<nat>) -> nat {
        total(self.accounts.map_values(|m: MessageAccountView| m.size())) + total(
            self.transactions.map(|i: int, m: MessageTransactionView| m.size_with(capacities[i])),
        ) + total(self.entries.map_values(|m: MessageEntryView| m.size())) + self.block_meta.size()
    }

    /// Whether sets with room for `capacities` can hold the keys of the transactions.
    pub open spec fn roomy(self, capacities: Seq<nat>) -> bool {
        &&& capacities.len() == self.transactions.len()
        &&& forall|i: int|
            0 <= i < capacities.len() ==> #[trigger] capacities[i]
                >= self.transactions[i].keys().len()
    }
}

/// The sum of `sizes`.
pub open spec fn total(sizes: Seq<nat>) -> nat
    decreases sizes.len(),
{
    if sizes.len() == 0 {
        0
    } else {
        total(sizes.drop_last()) + sizes.last()
    }
}

/// The sum of the first sizes is no more than the sum of all, nor is any of them.
proof fn lemma_total(sizes: Seq<nat>, i: int)
    requires
        0 <= i < sizes.len(),
    ensures
        total(sizes.take(i)) + sizes[i] == total(sizes.take(i + 1)),
        total(sizes.take(i + 1)) <= total(sizes),
    decreases sizes.len() - i,
{
    assert(sizes.take(i + 1).drop_last() =~= sizes.take(i));
    if i + 1 < sizes.len() {
        lemma_total(sizes, i + 1);
    } else {
        assert(sizes.take(i + 1) =~= sizes);
    }
}

/// The numbers `capacities` as counts.
pub open spec fn counts(capacities: Seq<usize>) -> Seq<nat> {
    capacities.map_values(|c: usize| c as nat)
}

impl Message {
    /// The block with these parts, where all of them were made by one parser.
    pub fn create_block(
        accounts: Vec<Arc<MessageAccount>>,
        transactions: Vec<Arc<MessageTransaction>>,
        entries: Vec<Arc<MessageEntry>>,
        block_meta: Arc<MessageBlockMeta>,
        created_at: MessageBlockCreatedAt,
    ) -> (r: Result<Message, MessageParseError>)
        ensures
            ({
                let block = MessageBlock { accounts, transactions, entries, block_meta, created_at };
                if block@.uniform() {
                    r == Ok::<Message, MessageParseError>(Message::Block(block))
                } else {
                    r == Err::<Message, MessageParseError>(MessageParseError::IncompatibleEncoding)
                }
            }),
    {
        let encoding = created_at.encoding();
        let ghost block = MessageBlock { accounts, transactions, entries, block_meta, created_at };
        if block_meta.encoding() != encoding {
            return Err(MessageParseError::IncompatibleEncoding);
        }
        let mut i: usize = 0;
        while i < accounts.len()
            invariant
                i <= accounts@.len(),
                block == (MessageBlock { accounts, transactions, entries, block_meta, created_at }),
                encoding == block@.encoding(),
                forall|j: int| 0 <= j < i ==> (#[trigger] block@.accounts[j]).encoding() == encoding,
            decreases accounts@.len() - i,
        {
            assert(block@.accounts[i as int] == (*accounts@[i as int])@);
            if accounts[i].encoding() != encoding {
                return Err(MessageParseError::IncompatibleEncoding);
            }
            i = i + 1;
        }
        let mut i: usize = 0;
        while i < transactions.len()
            invariant
                i <= transactions@.len(),
                block == (MessageBlock { accounts, transactions, entries, block_meta, created_at }),
                encoding == block@.encoding(),
                forall|j: int|
                    0 <= j < i ==> (#[trigger] block@.transactions[j]).encoding() == encoding,
            decreases transactions@.len() - i,
        {
            assert(block@.transactions[i as int] == (*transactions@[i as int])@);
            if transactions[i].encoding() != encoding {
                return Err(MessageParseError::IncompatibleEncoding);
            }
            i = i + 1;
        }
        let mut i: usize = 0;
        while i < entries.len()
            invariant
                i <= entries@.len(),
                block == (MessageBlock { accounts, transactions, entries, block_meta, created_at }),
                encoding == block@.encoding(),
                forall|j: int| 0 <= j < i ==> (#[trigger] block@.entries[j]).encoding() == encoding,
            decreases entries@.len() - i,
        {
            assert(block@.entries[i as int] == (*entries@[i as int])@);
            if entries[i].encoding() != encoding {
                return Err(MessageParseError::IncompatibleEncoding);
            }
            i = i + 1;
        }
        Ok(
            Message::Block(
                Self::unchecked_create_block(
                    accounts,
                    transactions,
                    entries,
                    block_meta,
                    created_at,
                ),
            ),
        )
    }

    /// The block with these parts.
    pub fn unchecked_create_block(
        accounts: Vec<Arc<MessageAccount>>,
        transactions: Vec<Arc<MessageTransaction>>,
        entries: Vec<Arc<MessageEntry>>,
        block_meta: Arc<MessageBlockMeta>,
        created_at: MessageBlockCreatedAt,
    ) -> (r: MessageBlock)
        ensures
            r == (MessageBlock { accounts, transactions, entries, block_meta, created_at }),
    {
        MessageBlock { accounts, transactions, entries, block_meta, created_at }
    }

    /// The slot of the message.
    pub fn slot(&self) -> (r: Slot)
        ensures
            r == self@.slot(),
    {
        match self {
            Message::Slot(m) => m.slot(),
            Message::Account(m) => m.slot(),
            Message::Transaction(m) => m.slot(),
            Message::Entry(m) => m.slot(),
            Message::BlockMeta(m) => m.slot(),
            Message::Block(m) => m.slot(),
        }
    }

    /// When the update was made.
    pub fn created_at(&self) -> (r: MessageBlockCreatedAt)
        ensures
            r == self@.created_at(),
    {
        match self {
            Message::Slot(m) => m.created_at(),
            Message::Account(m) => m.created_at(),
            Message::Transaction(m) => m.created_at(),
            Message::Entry(m) => m.created_at(),
            Message::BlockMeta(m) => m.created_at(),
            Message::Block(m) => m.created_at(),
        }
    }

    /// What the message costs to keep. The room in the sets of keys of its transactions counts, and
    /// the allocator decides how much there is beyond the keys themselves.
    pub fn size(&self) -> (r: usize)
        requires
            self@.base_size() <= usize::MAX,
        ensures
            exists|capacities: Seq<nat>|
                self@.roomy(capacities) && r == parser::size_of(
                    #[trigger] self@.size_with(capacities),
                ),
    {
        match self {
            Message::Slot(m) => {
                let r: usize = m.size();
                assert(self@.roomy(Seq::empty()) && r == parser::size_of(
                    self@.size_with(Seq::empty()),
                ));
                r
            },
            Message::Account(m) => {
                let r: usize = m.size();
                assert(self@.roomy(Seq::empty()) && r == parser::size_of(
                    self@.size_with(Seq::empty()),
                ));
                r
            },
            Message::Transaction(m) => {
                let capacity: usize = m.key_capacity();
                let r: usize = m.size_with(capacity);
                assert(self@.roomy(seq![capacity as nat]) && r == parser::size_of(
                    self@.size_with(seq![capacity as nat]),
                ));
                r
            },
            Message::Entry(m) => {
                let r: usize = m.size();
                assert(self@.roomy(Seq::empty()) && r == parser::size_of(
                    self@.size_with(Seq::empty()),
                ));
                r
            },
            Message::BlockMeta(m) => {
                let r: usize = m.size();
                assert(self@.roomy(Seq::empty()) && r == parser::size_of(
                    self@.size_with(Seq::empty()),
                ));
                r
            },
            Message::Block(m) => {
                let r: usize = m.size();
                proof {
                    let capacities = choose|capacities: Seq<nat>|
                        m@.roomy(capacities) && r == parser::size_of(
                            #[trigger] m@.size_with(capacities),
                        );
                    assert(self@.roomy(capacities) && r == parser::size_of(
                        self@.size_with(capacities),
                    ));
                }
                r
            },
        }
    }
}

impl MessageView {
    /// The slot of the message.
    pub open spec fn slot(self) -> Slot {
        match self {
            MessageView::Slot(m) => m.slot(),
            MessageView::Account(m) => m.content().slot,
            MessageView::Transaction(m) => m.slot(),
            MessageView::Entry(m) => m.slot(),
            MessageView::BlockMeta(m) => m.slot(),
            MessageView::Block(m) => m.slot(),
        }
    }

    /// When the update was made.
    pub open spec fn created_at(self) -> MessageBlockCreatedAt {
        match self {
            MessageView::Slot(m) => message::created_at_with(m.encoding(), m.created_at()),
            MessageView::Account(m) => message::created_at_with(m.encoding(), m.created_at()),
            MessageView::Transaction(m) => message::created_at_with(m.encoding(), m.created_at()),
            MessageView::Entry(m) => message::created_at_with(m.encoding(), m.created_at()),
            MessageView::BlockMeta(m) => message::created_at_with(m.encoding(), m.created_at()),
            MessageView::Block(m) => m.created_at,
        }
    }

    /// What the message costs to keep, the sets of keys of its transactions not counted.
    pub open spec fn base_size(self) -> nat {
        match self {
            MessageView::Slot(m) => m.size(),
            MessageView::Account(m) => m.size(),
            MessageView::Transaction(m) => m.base_size(),
            MessageView::Entry(m) => m.size(),
            MessageView::BlockMeta(m) => m.size(),
            MessageView::Block(m) => m.base_size(),
        }
    }

    /// What the message costs to keep, where the set of keys of each of its transactions has room
    /// for the number at its place in `capacities`.
    pub open spec fn size_with(self, capacities: Seq<nat>) -> nat {
        match self {
            MessageView::Transaction(m) => m.size_with(capacities[0]),
            MessageView::Block(m) => m.size_with(capacities),
            _ => self.base_size(),
        }
    }

    /// Whether sets with room for `capacities` can hold the keys of its transactions.
    pub open spec fn roomy(self, capacities: Seq<nat>) -> bool {
        match self {
            MessageView::Transaction(m) => capacities.len() == 1 && capacities[0]
                >= m.keys().len(),
            MessageView::Block(m) => m.roomy(capacities),
            _ => capacities.len() == 0,
        }
    }
}

impl MessageBlock {
    /// Which parser made the block.
    pub fn encoding(&self) -> (r: MessageParserEncoding)
        ensures
            r == self@.encoding(),
    {
        self.created_at.encoding()
    }

    /// The slot of the block.
    pub fn slot(&self) -> (r: Slot)
        ensures
            r == self@.slot(),
    {
        self.block_meta.slot()
    }

    /// When the block was made.
    pub fn created_at(&self) -> (r: MessageBlockCreatedAt)
        ensures
            r == self@.created_at,
    {
        self.created_at
    }

    /// What the block costs to keep, where the set of keys of each transaction has room for the
    /// number at its place in `capacities`.
    pub fn size_with(&self, capacities: &Vec<usize>) -> (r: usize)
        requires
            self@.base_size() <= usize::MAX,
            capacities@.len() == self@.transactions.len(),
        ensures
            r == parser::size_of(self@.size_with(counts(capacities@))),
    {
        let ghost of_accounts = self@.accounts.map_values(|m: MessageAccountView| m.size());
        let ghost of_bases = self@.transactions.map_values(
            |m: MessageTransactionView| m.base_size(),
        );
        let ghost of_transactions = self@.transactions.map(
            |i: int, m: MessageTransactionView| m.size_with(counts(capacities@)[i]),
        );
        let ghost of_entries = self@.entries.map_values(|m: MessageEntryView| m.size());
        let mut sum: usize = 0;
        let mut i: usize = 0;
        assert(of_accounts.take(0) =~= Seq::<nat>::empty());
        while i < self.accounts.len()
            invariant
                i <= self.accounts@.len(),
                of_accounts == self@.accounts.map_values(|m: MessageAccountView| m.size()),
                total(of_accounts) <= usize::MAX,
                sum == total(of_accounts.take(i as int)),
            decreases self.accounts@.len() - i,
        {
            proof {
                lemma_total(of_accounts, i as int);
                assert(of_accounts[i as int] == (*self.accounts@[i as int])@.size());
            }
            sum = sum + self.accounts[i].size();
            i = i + 1;
        }
        assert(of_accounts.take(i as int) =~= of_accounts);
        let mut i: usize = 0;
        assert(of_transactions.take(0) =~= Seq::<nat>::empty());
        while i < self.transactions.len()
            invariant
                i <= self.transactions@.len(),
                capacities@.len() == self.transactions@.len(),
                of_bases == self@.transactions.map_values(
                    |m: MessageTransactionView| m.base_size(),
                ),
                of_transactions == self@.transactions.map(
                    |i: int, m: MessageTransactionView| m.size_with(counts(capacities@)[i]),
                ),
                total(of_bases) <= usize::MAX,
                sum == parser::size_of(total(of_accounts) + total(of_transactions.take(i as int))),
            decreases self.transactions@.len() - i,
        {
            proof {
                lemma_total(of_transactions, i as int);
                lemma_total(of_bases, i as int);
                assert(of_bases[i as int] == (*self.transactions@[i as int])@.base_size());
                assert(of_transactions[i as int] == (*self.transactions@[i as int])@.size_with(
                    capacities@[i as int] as nat,
                ));
            }
            sum = parser::sum(sum, self.transactions[i].size_with(capacities[i]));
            i = i + 1;
        }
        assert(of_transactions.take(i as int) =~= of_transactions);
        let mut i: usize = 0;
        assert(of_entries.take(0) =~= Seq::<nat>::empty());
        while i < self.entries.len()
            invariant
                i <= self.entries@.len(),
                of_entries == self@.entries.map_values(|m: MessageEntryView| m.size()),
                total(of_entries) <= usize::MAX,
                sum == parser::size_of(
                    total(of_accounts) + total(of_transactions) + total(
                        of_entries.take(i as int),
                    ),
                ),
            decreases self.entries@.len() - i,
        {
            proof {
                lemma_total(of_entries, i as int);
                assert(of_entries[i as int] == (*self.entries@[i as int])@.size());
            }
            sum = parser::sum(sum, self.entries[i].size());
            i = i + 1;
        }
        assert(of_entries.take(i as int) =~= of_entries);
        parser::sum(sum, self.block_meta.size())
    }

    /// What the block costs to keep. The room in the sets of keys of its transactions counts, and
    /// the allocator decides how much there is beyond the keys themselves.
    pub fn size(&self) -> (r: usize)
        requires
            self@.base_size() <= usize::MAX,
        ensures
            exists|capacities: Seq<nat>|
                self@.roomy(capacities) && r == parser::size_of(
                    #[trigger] self@.size_with(capacities),
                ),
    {
        let mut capacities: Vec<usize> = Vec::new();
        let mut i: usize = 0;
        while i < self.transactions.len()
            invariant
                i <= self.transactions@.len(),
                capacities@.len() == i,
                forall|j: int|
                    0 <= j < i ==> #[trigger] capacities@[j]
                        >= self@.transactions[j].keys().len(),
            decreases self.transactions@.len() - i,
        {
            assert(self@.transactions[i as int] == (*self.transactions@[i as int])@);
            let capacity: usize = self.transactions[i].key_capacity();
            capacities.push(capacity);
            i = i + 1;
        }
        let r: usize = self.size_with(&capacities);
        proof {
            let all = counts(capacities@);
            assert forall|j: int| 0 <= j < all.len() implies #[trigger] all[j]
                >= self@.transactions[j].keys().len() by {
                assert(all[j] == capacities@[j]);
            }
            assert(self@.roomy(all) && r == parser::size_of(self@.size_with(all)));
        }
        r
    }
}

// ---------------------------------------------------------------------------------------------
// Whole transactions and blocks
// ---------------------------------------------------------------------------------------------

impl MessageTransactionView {
    /// The transaction in full, or why there is none.
    pub open spec fn transaction(self) -> Result<TransactionInfoView, &'static str> {
        match self {
            MessageTransactionView::Limited { buffer, transaction_range, .. } => {
                match geyser::prost_transaction_info(account::bytes_at(buffer, transaction_range)) {
                    Some(info) => Ok(info),
                    None => Err("FailedToDecode"),
                }
            },
            MessageTransactionView::Prost { transaction, .. } => Ok(transaction),
        }
    }

    /// What the types of the validator make of the transaction where it has metadata, or why they make
    /// nothing of it.
    pub open spec fn versioned(self, readings: Readings) -> Result<VersionedView, &'static str> {
        match self.transaction() {
            Err(e) => Err(e),
            Ok(info) => match readings.transaction(info) {
                Err(e) => Err(e),
                Ok(TransactionView::Complete(t)) => Ok(t),
                Ok(TransactionView::MissingMetadata(_)) => Err("FieldNotDefined"),
            },
        }
    }

    /// The transaction in full where it has metadata, or why there is none.
    pub open spec fn complete(self) -> Result<TransactionInfoView, &'static str> {
        match self.transaction() {
            Err(e) => Err(e),
            Ok(info) => if info.meta is Some {
                Ok(info)
            } else {
                Err("FieldNotDefined")
            },
        }
    }
}

impl MessageTransaction {
    /// The transaction in full.
    pub fn transaction(&self) -> (r: Result<SubscribeUpdateTransactionInfo, &'static str>)
        requires
            self@.in_bounds(),
        ensures
            match self@.transaction() {
                Ok(info) => r is Ok && r->Ok_0@ == info,
                Err(e) => r is Err && r->Err_0 == e,
            },
    {
        match self {
            MessageTransaction::Limited { buffer, transaction_range, .. } => {
                match geyser::decode_transaction_info(
                    vstd::slice::slice_subrange(
                        buffer.as_slice(),
                        transaction_range.start,
                        transaction_range.end,
                    ),
                ) {
                    Ok(info) => Ok(info),
                    Err(_) => Err("FailedToDecode"),
                }
            },
            MessageTransaction::Prost { transaction, .. } => Ok(transaction.clone()),
        }
    }

    /// The metadata of the transaction.
    pub fn transaction_meta(&self) -> (r: Result<TransactionStatusMeta, &'static str>)
        requires
            self@.in_bounds(),
        ensures
            match self@.complete() {
                Ok(info) => r is Ok && Some(r->Ok_0@) == info.meta,
                Err(e) => r is Err && r->Err_0 == e,
            },
    {
        match self.transaction() {
            Ok(info) => match info.meta {
                Some(meta) => Ok(meta),
                None => Err("FieldNotDefined"),
            },
            Err(e) => Err(e),
        }
    }

    /// What the types of the validator make of the transaction, where it has metadata.
    pub fn as_versioned_transaction_with_status_meta(&self, readings: &Readings) -> (r: Result<
        VersionedTransactionWithStatusMeta,
        &'static str,
    >)
        requires
            self@.in_bounds(),
        ensures
            match self@.versioned(*readings) {
                Ok(t) => r is Ok && r->Ok_0@ == t,
                Err(e) => r is Err && r->Err_0 == e,
            },
    {
        match self.transaction() {
            Ok(info) => match readings.read_transaction(&info) {
                Ok(TransactionWithStatusMeta::Complete(t)) => Ok(t),
                Ok(TransactionWithStatusMeta::MissingMetadata(_)) => Err("FieldNotDefined"),
                Err(e) => Err(e),
            },
            Err(e) => Err(e),
        }
    }
}

/// A reward.
#[derive(Debug, PartialEq, Eq)]
pub struct Reward {
    pub pubkey: String,
    pub lamports: i64,
    pub post_balance: u64,
    pub reward_type: i32,
    pub commission: String,
}

/// What a reward holds.
pub ghost struct RewardView {
    pub pubkey: Seq<char>,
    pub lamports: i64,
    pub post_balance: u64,
    pub reward_type: i32,
    pub commission: Seq<char>,
}

impl View for Reward {
    type V = RewardView;

    open spec fn view(&self) -> RewardView {
        RewardView {
            pubkey: self.pubkey@,
            lamports: self.lamports,
            post_balance: self.post_balance,
            reward_type: self.reward_type,
            commission: self.commission@,
        }
    }
}

/// What `Rewards::decode` of `yellowstone-grpc-proto` makes of the bytes: the rewards, and over how
/// many partitions they are spread.
pub uninterp spec fn prost_rewards(bytes: Seq<u8>) -> Option<(Seq<RewardView>, Option<u64>)>;

/// `Rewards::decode` of `yellowstone-grpc-proto`: the rewards, and over how many partitions they are
/// spread, or an error. Which bytes are rewards is left to that crate.
#[verifier::external_body]
pub(crate) fn decode_rewards(buf: &[u8]) -> (r: Result<(Vec<Reward>, Option<u64>), prost::DecodeError>)
    ensures
        match prost_rewards(buf@) {
            Some((rewards, partitions)) => {
                &&& r is Ok
                &&& parser::views(r->Ok_0.0@) == rewards
                &&& r->Ok_0.1 == partitions
            },
            None => r is Err,
        },
{
    let m = confirmed_block::Rewards::decode(buf)?;
    let rewards = m.rewards.into_iter().map(|reward| Reward {
        pubkey: reward.pubkey,
        lamports: reward.lamports,
        post_balance: reward.post_balance,
        reward_type: reward.reward_type,
        commission: reward.commission,
    });
    Ok((rewards.collect(), m.num_partitions.map(|partitions| partitions.num_partitions)))
}

/// A block of the validator's own types.
#[derive(Debug)]
pub struct ConfirmedBlock {
    pub previous_blockhash: String,
    pub blockhash: String,
    pub parent_slot: Slot,
    pub transactions: Vec<VersionedTransactionWithStatusMeta>,
    pub rewards: Vec<Reward>,
    pub num_partitions: Option<u64>,
    pub block_time: Option<i64>,
    pub block_height: Option<u64>,
}

/// What a block of the validator's own types holds.
pub ghost struct ConfirmedBlockView {
    pub previous_blockhash: Seq<char>,
    pub blockhash: Seq<char>,
    pub parent_slot: u64,
    pub transactions: Seq<VersionedView>,
    pub rewards: Seq<RewardView>,
    pub num_partitions: Option<u64>,
    pub block_time: Option<i64>,
    pub block_height: Option<u64>,
}

impl View for ConfirmedBlock {
    type V = ConfirmedBlockView;

    open spec fn view(&self) -> ConfirmedBlockView {
        ConfirmedBlockView {
            previous_blockhash: self.previous_blockhash@,
            blockhash: self.blockhash@,
            parent_slot: self.parent_slot,
            transactions: parser::views(self.transactions@),
            rewards: parser::views(self.rewards@),
            num_partitions: self.num_partitions,
            block_time: self.block_time,
            block_height: self.block_height,
        }
    }
}

/// What the types of the validator make of the transactions, or why they make nothing of the first of
/// those that they make nothing of.
pub open spec fn versioned_all(
    transactions: Seq<MessageTransactionView>,
    readings: Readings,
) -> Result<Seq<VersionedView>, &'static str>
    decreases transactions.len(),
{
    if transactions.len() == 0 {
        Ok(Seq::empty())
    } else {
        match (
            versioned_all(transactions.drop_last(), readings),
            transactions.last().versioned(readings),
        ) {
            (Err(e), _) => Err(e),
            (Ok(_), Err(e)) => Err(e),
            (Ok(before), Ok(t)) => Ok(before.push(t)),
        }
    }
}

/// Where the first transactions fail, all fail in the same way.
proof fn lemma_first_incomplete(
    transactions: Seq<MessageTransactionView>,
    readings: Readings,
    i: int,
)
    requires
        0 <= i <= transactions.len(),
        versioned_all(transactions.take(i), readings) is Err,
    ensures
        versioned_all(transactions, readings) == versioned_all(transactions.take(i), readings),
    decreases transactions.len() - i,
{
    if i < transactions.len() {
        assert(transactions.take(i + 1).drop_last() =~= transactions.take(i));
        lemma_first_incomplete(transactions, readings, i + 1);
    } else {
        assert(transactions.take(i) =~= transactions);
    }
}

/// What the types of the validator make of the rewards, or why they make nothing of the first of those
/// that they make nothing of.
pub open spec fn converted_all(rewards: Seq<RewardView>, readings: Readings) -> Result<
    Seq<RewardView>,
    &'static str,
>
    decreases rewards.len(),
{
    if rewards.len() == 0 {
        Ok(Seq::empty())
    } else {
        match (converted_all(rewards.drop_last(), readings), readings.reward(rewards.last())) {
            (Err(e), _) => Err(e),
            (Ok(_), Err(e)) => Err(e),
            (Ok(before), Ok(reward)) => Ok(before.push(reward)),
        }
    }
}

/// Where the first rewards fail, all fail in the same way.
proof fn lemma_first_unconverted(rewards: Seq<RewardView>, readings: Readings, i: int)
    requires
        0 <= i <= rewards.len(),
        converted_all(rewards.take(i), readings) is Err,
    ensures
        converted_all(rewards, readings) == converted_all(rewards.take(i), readings),
    decreases rewards.len() - i,
{
    if i < rewards.len() {
        assert(rewards.take(i + 1).drop_last() =~= rewards.take(i));
        lemma_first_unconverted(rewards, readings, i + 1);
    } else {
        assert(rewards.take(i) =~= rewards);
    }
}

/// What the types of the validator make of the rewards.
fn convert_rewards(rewards: &Vec<Reward>, readings: &Readings) -> (r: Result<
    Vec<Reward>,
    &'static str,
>)
    ensures
        match converted_all(parser::views(rewards@), *readings) {
            Ok(ms) => r is Ok && parser::views(r->Ok_0@) == ms,
            Err(e) => r is Err && r->Err_0 == e,
        },
{
    let ghost all = parser::views(rewards@);
    let mut converted: Vec<Reward> = Vec::new();
    let mut i: usize = 0;
    assert(all.take(0) =~= Seq::<RewardView>::empty());
    assert(parser::views(converted@) =~= Seq::<RewardView>::empty());
    while i < rewards.len()
        invariant
            i <= rewards@.len(),
            all == parser::views(rewards@),
            converted_all(all.take(i as int), *readings) == Ok::<Seq<RewardView>, &'static str>(
                parser::views(converted@),
            ),
        decreases rewards@.len() - i,
    {
        proof {
            assert(all.take(i + 1).drop_last() =~= all.take(i as int));
            assert(all.take(i + 1).last() == rewards@[i as int]@);
        }
        match readings.read_reward(&rewards[i]) {
            Ok(reward) => {
                let ghost before = converted@;
                converted.push(reward);
                assert(parser::views(converted@) =~= parser::views(before).push(reward@));
            },
            Err(e) => {
                proof {
                    lemma_first_unconverted(all, *readings, i + 1);
                }
                return Err(e);
            },
        }
        i = i + 1;
    }
    assert(all.take(i as int) =~= all);
    Ok(converted)
}

/// What the types of the validator make of the rewards of a block, and over how many partitions they are
/// spread. There are none where it has none.
pub open spec fn rewards_of(rewards: Option<Seq<u8>>, readings: Readings) -> Result<
    (Seq<RewardView>, Option<u64>),
    &'static str,
> {
    match rewards {
        Some(bytes) => match prost_rewards(bytes) {
            None => Err("FailedToDecode"),
            Some((rewards, num_partitions)) => match converted_all(rewards, readings) {
                Ok(rewards) => Ok((rewards, num_partitions)),
                Err(e) => Err(e),
            },
        },
        None => Ok((Seq::empty(), None)),
    }
}

impl MessageBlockView {
    /// What the types of the validator make of the block, or why they make nothing of it.
    pub open spec fn confirmed(self, readings: Readings) -> Result<ConfirmedBlockView, &'static str> {
        let meta = self.block_meta.block_meta();
        match versioned_all(self.transactions, readings) {
            Err(e) => Err(e),
            Ok(transactions) => match rewards_of(meta.rewards, readings) {
                Err(e) => Err(e),
                Ok((rewards, num_partitions)) => Ok(
                    ConfirmedBlockView {
                        previous_blockhash: meta.parent_blockhash,
                        blockhash: meta.blockhash,
                        parent_slot: meta.parent_slot,
                        transactions,
                        rewards,
                        num_partitions,
                        block_time: meta.block_time,
                        block_height: meta.block_height,
                    },
                ),
            },
        }
    }
}

impl MessageBlock {
    /// What the types of the validator make of the block.
    pub fn as_confirmed_block(&self, readings: &Readings) -> (r: Result<ConfirmedBlock, &'static str>)
        requires
            forall|i: int|
                0 <= i < self@.transactions.len() ==> (#[trigger] self@.transactions[i]).in_bounds(),
        ensures
            match self@.confirmed(*readings) {
                Ok(block) => r is Ok && r->Ok_0@ == block,
                Err(e) => r is Err && r->Err_0 == e,
            },
    {
        let ghost all = self@.transactions;
        let mut transactions: Vec<VersionedTransactionWithStatusMeta> = Vec::new();
        let mut i: usize = 0;
        assert(all.take(0) =~= Seq::<MessageTransactionView>::empty());
        assert(parser::views(transactions@) =~= Seq::<VersionedView>::empty());
        while i < self.transactions.len()
            invariant
                i <= self.transactions@.len(),
                all == self@.transactions,
                forall|i: int| 0 <= i < all.len() ==> (#[trigger] all[i]).in_bounds(),
                versioned_all(all.take(i as int), *readings) == Ok::<
                    Seq<VersionedView>,
                    &'static str,
                >(parser::views(transactions@)),
            decreases self.transactions@.len() - i,
        {
            proof {
                assert(all.take(i + 1).drop_last() =~= all.take(i as int));
                assert(all[i as int] == (*self.transactions@[i as int])@);
            }
            match self.transactions[i].as_versioned_transaction_with_status_meta(readings) {
                Ok(t) => {
                    let ghost before = transactions@;
                    transactions.push(t);
                    assert(parser::views(transactions@) =~= parser::views(before).push(t@));
                },
                Err(e) => {
                    proof {
                        lemma_first_incomplete(all, *readings, i + 1);
                    }
                    return Err(e);
                },
            }
            i = i + 1;
        }
        assert(all.take(i as int) =~= all);
        let meta = self.block_meta.block_meta();
        let (rewards, num_partitions) = match &meta.rewards {
            Some(bytes) => match decode_rewards(bytes.as_slice()) {
                Ok((rewards, num_partitions)) => match convert_rewards(&rewards, readings) {
                    Ok(rewards) => (rewards, num_partitions),
                    Err(e) => return Err(e),
                },
                Err(_) => return Err("FailedToDecode"),
            },
            None => {
                let none: Vec<Reward> = Vec::new();
                assert(parser::views(none@) =~= Seq::<RewardView>::empty());
                (none, None)
            },
        };
        Ok(
            ConfirmedBlock {
                previous_blockhash: meta.parent_blockhash.as_str().to_owned(),
                blockhash: meta.blockhash.as_str().to_owned(),
                parent_slot: meta.parent_slot,
                transactions,
                rewards,
                num_partitions,
                block_time: meta.block_time,
                block_height: meta.block_height,
            },
        )
    }
}

} // verus!
