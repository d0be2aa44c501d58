//! Updates that passed, encoded for a subscriber.
use vstd::prelude::*;

use crate::account;
use crate::account::{MessageAccount, MessageAccountView};
use crate::codec;
use crate::codec::Timestamp;
use crate::collections;
use crate::decode::Span;
use crate::encode;
use crate::filter;
use crate::filter::{
    Filter, FilterAccountDataSlices, FilteredUpdate, FilteredUpdateFilters, FilteredUpdateType,
};
use crate::geyser;
use crate::geyser::{AccountInfoView, AccountView, CommitmentLevel, SlotView};
use crate::message;
use crate::message::{
    MessageBlock, MessageBlockMeta, MessageBlockMetaView, MessageBlockView, MessageEntry,
    MessageEntryView, MessageRef, MessageSlot, MessageSlotView, MessageTransaction,
    MessageTransactionView,
};
use crate::round_trip;
use crate::wire;

verus! {

// ---------------------------------------------------------------------------------------------
// What the encoded updates are
// ---------------------------------------------------------------------------------------------

/// Whether `range` lies within `buffer`.
pub open spec fn range_in(buffer: Seq<u8>, range: Span) -> bool {
    range.start <= range.end <= buffer.len()
}

/// A slot update: the bytes that came, or the encoded slot.
pub open spec fn slot_payload(m: MessageSlotView) -> Seq<u8> {
    match m {
        MessageSlotView::Limited { buffer, range, .. } => account::bytes_at(buffer, range),
        MessageSlotView::Prost { slot, parent, status, dead_error, .. } => encode::slot_bytes(
            SlotView { slot, parent, status: geyser::slot_status_number(status), dead_error },
        ),
    }
}

/// The account as the message has it.
pub open spec fn account_info(m: MessageAccountView) -> AccountInfoView {
    match m {
        MessageAccountView::Limited { .. } => m.content().info,
        MessageAccountView::Prost { account, .. } => account,
    }
}

/// The account with the parts of its data that `slices` ask for.
pub open spec fn sliced_info(m: MessageAccountView, slices: Seq<(nat, nat)>) -> AccountInfoView {
    AccountInfoView { data: filter::slice_of(slices, account_info(m).data), ..account_info(m) }
}

/// An account update: the bytes that came where all of the data is asked for, else the encoded
/// account with the parts of its data that are.
pub open spec fn account_payload(m: MessageAccountView, slices: Seq<(nat, nat)>) -> Seq<u8> {
    if m is Limited && slices.len() == 0 {
        account::bytes_at(m->Limited_buffer, m->Limited_range)
    } else {
        encode::account_bytes(
            AccountView {
                account: Some(sliced_info(m, slices)),
                slot: m.content().slot,
                is_startup: m.content().is_startup,
            },
        )
    }
}

/// A transaction update: the bytes that came, or the encoded transaction.
pub open spec fn transaction_payload(m: MessageTransactionView) -> Seq<u8> {
    match m {
        MessageTransactionView::Limited { buffer, range, .. } => account::bytes_at(buffer, range),
        MessageTransactionView::Prost { transaction, slot, .. } => encode::transaction_bytes(
            encode::transaction_info_bytes(transaction),
            slot,
        ),
    }
}

/// A transaction status update.
pub open spec fn status_payload(m: MessageTransactionView) -> Seq<u8> {
    encode::transaction_status_bytes(m.slot(), m.signature(), m.vote(), m.index(), m.error())
}

/// An entry update: the bytes that came, or the encoded entry.
pub open spec fn entry_payload(m: MessageEntryView) -> Seq<u8> {
    match m {
        MessageEntryView::Limited { buffer, range, .. } => account::bytes_at(buffer, range),
        MessageEntryView::Prost { entry, .. } => encode::entry_bytes(entry),
    }
}

/// A block metadata update: the bytes that came, or the encoded metadata.
pub open spec fn block_meta_payload(m: MessageBlockMetaView) -> Seq<u8> {
    match m {
        MessageBlockMetaView::Limited { buffer, range, .. } => account::bytes_at(buffer, range),
        MessageBlockMetaView::Prost { block_meta, .. } => encode::block_meta_bytes(block_meta),
    }
}

/// The transaction in a block.
pub open spec fn transaction_part(m: MessageTransactionView) -> Seq<u8> {
    match m {
        MessageTransactionView::Limited { buffer, transaction_range, .. } => account::bytes_at(
            buffer,
            transaction_range,
        ),
        MessageTransactionView::Prost { transaction, .. } => encode::transaction_info_bytes(
            transaction,
        ),
    }
}

/// The account in a block.
pub open spec fn account_part(m: MessageAccountView, slices: Seq<(nat, nat)>) -> Seq<u8> {
    encode::account_info_bytes(sliced_info(m, slices))
}

/// The transactions of a block at the indices.
pub open spec fn transaction_parts(
    messages: Seq<MessageTransactionView>,
    indices: Seq<usize>,
) -> Seq<Seq<u8>> {
    indices.map_values(|i: usize| transaction_part(messages[i as int]))
}

/// The accounts of a block at the indices.
pub open spec fn account_parts(
    messages: Seq<MessageAccountView>,
    indices: Seq<usize>,
    slices: Seq<(nat, nat)>,
) -> Seq<Seq<u8>> {
    indices.map_values(|i: usize| account_part(messages[i as int], slices))
}

/// The entries of a block, where they passed.
pub open spec fn entry_parts(messages: Seq<MessageEntryView>, entries: bool) -> Seq<Seq<u8>> {
    if entries {
        messages.map_values(|m: MessageEntryView| entry_payload(m))
    } else {
        Seq::empty()
    }
}

/// A block update: of the block, what passed.
pub open spec fn block_payload(
    m: MessageBlockView,
    accounts: Seq<usize>,
    transactions: Seq<usize>,
    entries: bool,
    slices: Seq<(nat, nat)>,
) -> Seq<u8> {
    encode::block_bytes(
        m.block_meta.block_meta(),
        transaction_parts(m.transactions, transactions),
        m.accounts.len() as u64,
        account_parts(m.accounts, accounts, slices),
        entry_parts(m.entries, entries),
    )
}

/// The tag, the bytes and the time of the update.
pub open spec fn update_parts(update: FilteredUpdateType) -> (u32, Seq<u8>, Timestamp) {
    match update {
        FilteredUpdateType::Account { message, data_slices } => (
            2,
            account_payload(message@, data_slices@),
            message@.created_at(),
        ),
        FilteredUpdateType::Slot { message } => (
            3,
            slot_payload(message@),
            message@.created_at(),
        ),
        FilteredUpdateType::Transaction { message } => (
            4,
            transaction_payload(message@),
            message@.created_at(),
        ),
        FilteredUpdateType::Block { message, accounts, transactions, entries, data_slices } => (
            5,
            block_payload(message@, accounts@, transactions@, entries, data_slices@),
            message@.created_at.timestamp(),
        ),
        FilteredUpdateType::BlockMeta { message } => (
            7,
            block_meta_payload(message@),
            message@.created_at(),
        ),
        FilteredUpdateType::Entry { message } => (
            8,
            entry_payload(message@),
            message@.created_at(),
        ),
        FilteredUpdateType::TransactionStatus { message } => (
            10,
            status_payload(message@),
            message@.created_at(),
        ),
    }
}

/// Whether the places of the message lie within its buffer.
pub open spec fn slot_encodable(m: MessageSlotView) -> bool {
    m matches MessageSlotView::Limited { buffer, range, .. } ==> range_in(buffer, range)
}

/// Whether the places of the message lie within its buffer.
pub open spec fn entry_encodable(m: MessageEntryView) -> bool {
    m matches MessageEntryView::Limited { buffer, range, .. } ==> range_in(buffer, range)
}

/// Whether the places of the message lie within its buffer.
pub open spec fn block_meta_encodable(m: MessageBlockMetaView) -> bool {
    m matches MessageBlockMetaView::Limited { buffer, range, .. } ==> range_in(buffer, range)
}

/// Whether the indices are those of parts that were made by the parser that made the block, with
/// places that lie within their buffers.
pub open spec fn block_encodable(
    m: MessageBlockView,
    accounts: Seq<usize>,
    transactions: Seq<usize>,
    entries: bool,
) -> bool {
    let encoding = m.created_at.parser();
    &&& m.block_meta.encoding() == encoding
    &&& forall|j: int|
        0 <= j < accounts.len() ==> {
            let i = #[trigger] accounts[j];
            &&& i < m.accounts.len()
            &&& m.accounts[i as int].encoding() == encoding
            &&& m.accounts[i as int].in_bounds()
        }
    &&& forall|j: int|
        0 <= j < transactions.len() ==> {
            let i = #[trigger] transactions[j];
            &&& i < m.transactions.len()
            &&& m.transactions[i as int].encoding() == encoding
            &&& m.transactions[i as int].in_bounds()
        }
    &&& entries ==> forall|j: int|
        0 <= j < m.entries.len() ==> (#[trigger] m.entries[j]).encoding() == encoding
            && entry_encodable(m.entries[j])
}

/// Whether the update can be encoded: the places of its message lie within the buffer, a status is
/// that of a transaction with a signature, and all parts of a block were made by one parser.
pub open spec fn encodable(update: FilteredUpdateType) -> bool {
    match update {
        FilteredUpdateType::Slot { message } => slot_encodable(message@),
        FilteredUpdateType::Account { message, .. } => message@.in_bounds(),
        FilteredUpdateType::Transaction { message } => message@.in_bounds(),
        FilteredUpdateType::TransactionStatus { message } => {
            message@.in_bounds() && message@.signed()
        },
        FilteredUpdateType::Entry { message } => entry_encodable(message@),
        FilteredUpdateType::BlockMeta { message } => block_meta_encodable(message@),
        FilteredUpdateType::Block { message, accounts, transactions, entries, .. } => {
            block_encodable(message@, accounts@, transactions@, entries)
        },
    }
}

// ---------------------------------------------------------------------------------------------
// Encoding
// ---------------------------------------------------------------------------------------------

fn slot_update(message: &MessageSlot) -> (r: Vec<u8>)
    requires
        slot_encodable(message@),
    ensures
        r@ == slot_payload(message@),
{
    match message {
        MessageSlot::Limited { buffer, range, .. } => vstd::slice::slice_to_vec(
            vstd::slice::slice_subrange(buffer.as_slice(), range.start, range.end),
        ),
        MessageSlot::Prost { slot, parent, status, dead_error, .. } => {
            let mut buf: Vec<u8> = Vec::new();
            let text: Option<&str> = match dead_error {
                Some(text) => Some(text.as_str()),
                None => None,
            };
            encode::slot_encode(*slot, *parent, status.number(), text, &mut buf);
            assert(buf@ =~= slot_payload(message@));
            buf
        },
    }
}

fn account_in_block(message: &MessageAccount, data_slices: &FilterAccountDataSlices) -> (r: Vec<u8>)
    requires
        message@.in_bounds(),
    ensures
        r@ == account_part(message@, data_slices@),
{
    let mut buf: Vec<u8> = Vec::new();
    let data = data_slices.get_slice(message.data());
    let pubkey: &[u8] = match message {
        MessageAccount::Limited { pubkey, .. } => pubkey.as_slice(),
        MessageAccount::Prost { account, .. } => account.pubkey.as_slice(),
    };
    let owner: &[u8] = match message {
        MessageAccount::Limited { owner, .. } => owner.as_slice(),
        MessageAccount::Prost { account, .. } => account.owner.as_slice(),
    };
    encode::account_info_encode(
        pubkey,
        message.lamports(),
        owner,
        message.executable(),
        message.rent_epoch(),
        data.as_slice(),
        message.write_version(),
        message.txn_signature(),
        &mut buf,
    );
    assert(buf@ =~= account_part(message@, data_slices@));
    buf
}

fn account_update(message: &MessageAccount, data_slices: &FilterAccountDataSlices) -> (r: Vec<u8>)
    requires
        message@.in_bounds(),
    ensures
        r@ == account_payload(message@, data_slices@),
{
    if data_slices.is_empty() {
        if let MessageAccount::Limited { buffer, range, .. } = message {
            return vstd::slice::slice_to_vec(
                vstd::slice::slice_subrange(buffer.as_slice(), range.start, range.end),
            );
        }
    }
    let is_startup: bool = match message {
        MessageAccount::Limited { is_startup, .. } => *is_startup,
        MessageAccount::Prost { is_startup, .. } => *is_startup,
    };
    let info = account_in_block(message, data_slices);
    let mut buf: Vec<u8> = Vec::new();
    encode::account_encode(info.as_slice(), message.slot(), is_startup, &mut buf);
    assert(buf@ =~= account_payload(message@, data_slices@));
    buf
}

fn transaction_in_block(message: &MessageTransaction) -> (r: Vec<u8>)
    requires
        message@.in_bounds(),
    ensures
        r@ == transaction_part(message@),
{
    match message {
        MessageTransaction::Limited { buffer, transaction_range, .. } => vstd::slice::slice_to_vec(
            vstd::slice::slice_subrange(
                buffer.as_slice(),
                transaction_range.start,
                transaction_range.end,
            ),
        ),
        MessageTransaction::Prost { transaction, .. } => {
            let mut buf: Vec<u8> = Vec::new();
            encode::transaction_info_encode(transaction, &mut buf);
            assert(buf@ =~= transaction_part(message@));
            buf
        },
    }
}

fn transaction_update(message: &MessageTransaction) -> (r: Vec<u8>)
    requires
        message@.in_bounds(),
    ensures
        r@ == transaction_payload(message@),
{
    match message {
        MessageTransaction::Limited { buffer, range, .. } => vstd::slice::slice_to_vec(
            vstd::slice::slice_subrange(buffer.as_slice(), range.start, range.end),
        ),
        MessageTransaction::Prost { slot, .. } => {
            let info = transaction_in_block(message);
            let mut buf: Vec<u8> = Vec::new();
            encode::transaction_encode(info.as_slice(), *slot, &mut buf);
            assert(buf@ =~= transaction_payload(message@));
            buf
        },
    }
}

fn transaction_status_update(message: &MessageTransaction) -> (r: Vec<u8>)
    requires
        message@.in_bounds(),
        message@.signed(),
    ensures
        r@ == status_payload(message@),
{
    let mut buf: Vec<u8> = Vec::new();
    let err: Option<&[u8]> = match message.error() {
        Some(error) => Some(error.err.as_slice()),
        None => None,
    };
    encode::transaction_status_encode(
        message.slot(),
        message.signature_ref(),
        message.vote(),
        message.index(),
        err,
        &mut buf,
    );
    assert(buf@ =~= status_payload(message@));
    buf
}

fn entry_update(message: &MessageEntry) -> (r: Vec<u8>)
    requires
        entry_encodable(message@),
    ensures
        r@ == entry_payload(message@),
{
    match message {
        MessageEntry::Limited { buffer, range, .. } => vstd::slice::slice_to_vec(
            vstd::slice::slice_subrange(buffer.as_slice(), range.start, range.end),
        ),
        MessageEntry::Prost { entry, .. } => {
            let mut buf: Vec<u8> = Vec::new();
            encode::entry_encode(entry, &mut buf);
            assert(buf@ =~= entry_payload(message@));
            buf
        },
    }
}

fn block_meta_update(message: &MessageBlockMeta) -> (r: Vec<u8>)
    requires
        block_meta_encodable(message@),
    ensures
        r@ == block_meta_payload(message@),
{
    match message {
        MessageBlockMeta::Limited { buffer, range, .. } => vstd::slice::slice_to_vec(
            vstd::slice::slice_subrange(buffer.as_slice(), range.start, range.end),
        ),
        MessageBlockMeta::Prost { block_meta, .. } => {
            let mut buf: Vec<u8> = Vec::new();
            encode::block_meta_encode(block_meta, &mut buf);
            assert(buf@ =~= block_meta_payload(message@));
            buf
        },
    }
}

fn block_update(
    message: &MessageBlock,
    accounts: &Vec<usize>,
    transactions: &Vec<usize>,
    entries: bool,
    data_slices: &FilterAccountDataSlices,
) -> (r: Vec<u8>)
    requires
        block_encodable(message@, accounts@, transactions@, entries),
    ensures
        r@ == block_payload(message@, accounts@, transactions@, entries, data_slices@),
{
    let mut encoded_transactions: Vec<Vec<u8>> = Vec::new();
    let mut i: usize = 0;
    while i < transactions.len()
        invariant
            i <= transactions@.len(),
            block_encodable(message@, accounts@, transactions@, entries),
            encoded_transactions@.len() == i,
            forall|j: int|
                0 <= j < i ==> (#[trigger] encoded_transactions@[j])@ == transaction_part(
                    message@.transactions[transactions@[j] as int],
                ),
        decreases transactions@.len() - i,
    {
        let index: usize = transactions[i];
        assert(index == transactions@[i as int]);
        encoded_transactions.push(transaction_in_block(&message.transactions[index]));
        i = i + 1;
    }
    let mut encoded_accounts: Vec<Vec<u8>> = Vec::new();
    let mut i: usize = 0;
    while i < accounts.len()
        invariant
            i <= accounts@.len(),
            block_encodable(message@, accounts@, transactions@, entries),
            encoded_accounts@.len() == i,
            forall|j: int|
                0 <= j < i ==> (#[trigger] encoded_accounts@[j])@ == account_part(
                    message@.accounts[accounts@[j] as int],
                    data_slices@,
                ),
        decreases accounts@.len() - i,
    {
        let index: usize = accounts[i];
        assert(index == accounts@[i as int]);
        encoded_accounts.push(account_in_block(&message.accounts[index], data_slices));
        i = i + 1;
    }
    let mut encoded_entries: Vec<Vec<u8>> = Vec::new();
    if entries {
        let mut i: usize = 0;
        while i < message.entries.len()
            invariant
                i <= message.entries@.len(),
                entries,
                block_encodable(message@, accounts@, transactions@, entries),
                encoded_entries@.len() == i,
                forall|j: int|
                    0 <= j < i ==> (#[trigger] encoded_entries@[j])@ == entry_payload(
                        message@.entries[j],
                    ),
            decreases message.entries@.len() - i,
        {
            assert(message@.entries[i as int] == (*message.entries@[i as int])@);
            encoded_entries.push(entry_update(&message.entries[i]));
            i = i + 1;
        }
    }
    let mut buf: Vec<u8> = Vec::new();
    encode::block_encode(
        message.block_meta.block_meta(),
        &encoded_transactions,
        message.accounts.len() as u64,
        &encoded_accounts,
        &encoded_entries,
        &mut buf,
    );
    proof {
        assert(geyser::bytes_each(encoded_transactions@) =~= transaction_parts(
            message@.transactions,
            transactions@,
        ));
        assert(geyser::bytes_each(encoded_accounts@) =~= account_parts(
            message@.accounts,
            accounts@,
            data_slices@,
        ));
        assert(geyser::bytes_each(encoded_entries@) =~= entry_parts(message@.entries, entries));
        assert(buf@ =~= block_payload(message@, accounts@, transactions@, entries, data_slices@));
    }
    buf
}

/// Appends the names of filters.
fn filters_encode(filters: &FilteredUpdateFilters, buf: &mut Vec<u8>)
    ensures
        final(buf)@ == old(buf)@ + encode::repeated_field(
            1,
            encode::utf8_each(collections::names(*filters)),
        ),
{
    let ghost before = buf@;
    let ghost all = encode::utf8_each(collections::names(*filters));
    let mut i: usize = 0;
    assert(all.take(0) =~= Seq::<Seq<u8>>::empty());
    assert(before + encode::repeated_field(1, all.take(0)) =~= before);
    while i < filters.len()
        invariant
            i <= all.len(),
            all == encode::utf8_each(collections::names(*filters)),
            buf@ == before + encode::repeated_field(1, all.take(i as int)),
        decreases all.len() - i,
    {
        encode::bytes_encode(1, filters.at(i).as_bytes(), buf);
        proof {
            let next = all.take(i + 1);
            assert(next.drop_last() =~= all.take(i as int));
            encode::lemma_append(
                before,
                encode::repeated_field(1, all.take(i as int)),
                wire::bytes_field(1, next.last()),
            );
        }
        i = i + 1;
    }
    assert(all.take(all.len() as int) =~= all);
}

impl FilteredUpdateType<'_> {
    /// The tag, the bytes and the time of the update.
    fn parts(&self) -> (r: (u32, Vec<u8>, Timestamp))
        requires
            encodable(*self),
        ensures
            (r.0, r.1@, r.2) == update_parts(*self),
    {
        match self {
            FilteredUpdateType::Slot { message } => (
                3,
                slot_update(message),
                Timestamp::from(message.created_at()),
            ),
            FilteredUpdateType::Account { message, data_slices } => (
                2,
                account_update(message, data_slices),
                Timestamp::from(message.created_at()),
            ),
            FilteredUpdateType::Transaction { message } => (
                4,
                transaction_update(message),
                Timestamp::from(message.created_at()),
            ),
            FilteredUpdateType::TransactionStatus { message } => (
                10,
                transaction_status_update(message),
                Timestamp::from(message.created_at()),
            ),
            FilteredUpdateType::Entry { message } => (
                8,
                entry_update(message),
                Timestamp::from(message.created_at()),
            ),
            FilteredUpdateType::BlockMeta { message } => (
                7,
                block_meta_update(message),
                Timestamp::from(message.created_at()),
            ),
            FilteredUpdateType::Block { message, accounts, transactions, entries, data_slices } => (
                5,
                block_update(message, accounts, transactions, *entries, data_slices),
                Timestamp::from(message.created_at),
            ),
        }
    }
}

impl FilteredUpdate<'_> {
    /// The update in its envelope.
    pub open spec fn encoded(&self) -> Seq<u8> {
        let (tag, payload, created_at) = update_parts(self.filtered_update);
        encode::envelope_bytes(collections::names(self.filters), tag, payload, created_at)
    }

    /// The update in its envelope.
    pub fn encode_to_vec(&self) -> (r: Vec<u8>)
        requires
            encodable(self.filtered_update),
        ensures
            r@ == self.encoded(),
    {
        let mut bytes: Vec<u8> = Vec::new();
        self.encode(&mut bytes);
        assert(bytes@ =~= self.encoded());
        bytes
    }

    /// Appends the update in its envelope.
    pub fn encode(&self, buf: &mut Vec<u8>)
        requires
            encodable(self.filtered_update),
        ensures
            final(buf)@ == old(buf)@ + self.encoded(),
    {
        let ghost before = buf@;
        let (tag, payload, created_at) = self.filtered_update.parts();
        filters_encode(&self.filters, buf);
        encode::bytes_encode(tag, payload.as_slice(), buf);
        codec::encode_timestamp(11, created_at, buf);
        proof {
            let a = encode::repeated_field(
                1,
                encode::utf8_each(collections::names(self.filters)),
            );
            let b = wire::bytes_field(tag, payload@);
            let c = wire::bytes_field(11, codec::timestamp_bytes(created_at));
            assert(buf@ == ((before + a) + b) + c);
            assert(((before + a) + b) + c =~= before + ((a + b) + c));
        }
    }
}

// ---------------------------------------------------------------------------------------------
// Whole messages
// ---------------------------------------------------------------------------------------------

/// The numbers below `n`, in order.
pub open spec fn below(n: nat) -> Seq<usize> {
    Seq::new(n, |i: int| i as usize)
}

/// The numbers below `n`, in order.
fn numbers_below(n: usize) -> (r: Vec<usize>)
    ensures
        r@ == below(n as nat),
{
    let mut numbers: Vec<usize> = Vec::new();
    let mut i: usize = 0;
    while i < n
        invariant
            i <= n,
            numbers@.len() == i,
            forall|j: int| 0 <= j < i ==> #[trigger] numbers@[j] == j,
        decreases n - i,
    {
        numbers.push(i);
        i = i + 1;
    }
    assert(numbers@ =~= below(n as nat));
    numbers
}

/// Whether `update` is all of `message`.
pub open spec fn whole(update: FilteredUpdateType, message: MessageRef) -> bool {
    match message {
        MessageRef::Slot(m) => update == (FilteredUpdateType::Slot { message: m }),
        MessageRef::Account(m) => {
            &&& update matches FilteredUpdateType::Account { message, data_slices }
            &&& message == m
            &&& data_slices@ == Seq::<(nat, nat)>::empty()
        },
        MessageRef::Transaction(m) => update == (FilteredUpdateType::Transaction { message: m }),
        MessageRef::Entry(m) => update == (FilteredUpdateType::Entry { message: m }),
        MessageRef::BlockMeta(m) => update == (FilteredUpdateType::BlockMeta { message: m }),
        MessageRef::Block(m) => {
            &&& update matches FilteredUpdateType::Block {
                message,
                accounts,
                transactions,
                entries,
                data_slices,
            }
            &&& message == m
            &&& accounts@ == below(m@.accounts.len())
            &&& transactions@ == below(m@.transactions.len())
            &&& entries
            &&& data_slices@ == Seq::<(nat, nat)>::empty()
        },
    }
}

impl<'a> FilteredUpdateType<'a> {
    /// All of `message`. The caller keeps `all`, which asks for no parts and so for all of the data.
    pub fn from_message(message: MessageRef<'a>, all: &'a FilterAccountDataSlices) -> (r: Self)
        requires
            all@.len() == 0,
        ensures
            whole(r, message),
    {
        assert(all@ =~= Seq::<(nat, nat)>::empty());
        match message {
            MessageRef::Slot(message) => FilteredUpdateType::Slot { message },
            MessageRef::Account(message) => FilteredUpdateType::Account {
                message,
                data_slices: all,
            },
            MessageRef::Transaction(message) => FilteredUpdateType::Transaction { message },
            MessageRef::Entry(message) => FilteredUpdateType::Entry { message },
            MessageRef::BlockMeta(message) => FilteredUpdateType::BlockMeta { message },
            MessageRef::Block(message) => FilteredUpdateType::Block {
                message,
                accounts: numbers_below(message.accounts.len()),
                transactions: numbers_below(message.transactions.len()),
                entries: true,
                data_slices: all,
            },
        }
    }
}

/// The indices of items that pass are those of items.
proof fn lemma_passing<M>(items: Seq<M>, passes: spec_fn(M) -> bool)
    ensures
        forall|j: int|
            0 <= j < filter::passing(items, passes).len() ==> #[trigger] filter::passing(
                items,
                passes,
            )[j] < items.len(),
    decreases items.len(),
{
    if items.len() > 0 {
        let before = filter::passing(items.drop_last(), passes);
        let all = filter::passing(items, passes);
        lemma_passing(items.drop_last(), passes);
        assert forall|j: int| 0 <= j < all.len() implies #[trigger] all[j] < items.len() by {
            if j < before.len() {
                assert(all[j] == before[j]);
            }
        }
    }
}

/// What filters make of a message whose places lie within its buffer can be encoded.
pub proof fn law_filtered_encodable(
    filter: &Filter,
    updates: Seq<FilteredUpdate>,
    message: MessageRef,
    commitment: CommitmentLevel,
)
    requires
        round_trip::within_buffer(message::ref_view(message)),
        filter::filterable(message),
        filter.makes(updates, message, commitment),
    ensures
        forall|i: int|
            0 <= i < updates.len() ==> encodable((#[trigger] updates[i]).filtered_update),
{
    if let MessageRef::Block(m) = message {
        assert forall|i: int| 0 <= i < updates.len() implies encodable(
            (#[trigger] updates[i]).filtered_update,
        ) by {
            let blocks = filter@.blocks[i].1;
            lemma_passing(
                m@.accounts,
                |a: MessageAccountView|
                    filter::among(blocks.account_include, a.content().info.pubkey),
            );
            lemma_passing(
                m@.transactions,
                |t: MessageTransactionView|
                    blocks.account_include == Set::<Seq<u8>>::empty()
                        || !blocks.account_include.disjoint(t.account_keys()),
            );
        }
    }
}

/// All of a message whose places lie within its buffer can be encoded.
pub proof fn law_whole_encodable(update: FilteredUpdateType, message: MessageRef)
    requires
        round_trip::within_buffer(message::ref_view(message)),
        whole(update, message),
    ensures
        encodable(update),
        update_parts(update) == round_trip::message_parts(message::ref_view(message)),
{
    match message {
        MessageRef::Block(m) => {
            assert forall|j: int| 0 <= j < below(m@.accounts.len()).len() implies #[trigger] below(
                m@.accounts.len(),
            )[j] < m@.accounts.len() by {}
            assert forall|j: int| 0 <= j < below(m@.transactions.len()).len() implies #[trigger] below(
                m@.transactions.len(),
            )[j] < m@.transactions.len() by {}
        },
        _ => {},
    }
}

/// An update of a whole message holds all of it: every account, every transaction and every entry of a
/// block, in order, and all of the data of accounts.
pub proof fn law_whole(update: FilteredUpdateType, message: MessageRef)
    requires
        whole(update, message),
    ensures
        match (message, update) {
            (MessageRef::Slot(m), FilteredUpdateType::Slot { message }) => message == m,
            (MessageRef::Account(m), FilteredUpdateType::Account { message, data_slices }) => message
                == m && data_slices@.len() == 0,
            (MessageRef::Transaction(m), FilteredUpdateType::Transaction { message }) => message == m,
            (MessageRef::Entry(m), FilteredUpdateType::Entry { message }) => message == m,
            (MessageRef::BlockMeta(m), FilteredUpdateType::BlockMeta { message }) => message == m,
            (
                MessageRef::Block(m),
                FilteredUpdateType::Block {
                    message,
                    accounts,
                    transactions,
                    entries,
                    data_slices,
                },
            ) => {
                &&& message == m
                &&& accounts@.len() == m@.accounts.len()
                &&& forall|i: int|
                    0 <= i < accounts@.len() && i <= usize::MAX ==> #[trigger] accounts@[i] == i
                &&& transactions@.len() == m@.transactions.len()
                &&& forall|i: int|
                    0 <= i < transactions@.len() && i <= usize::MAX ==> #[trigger] transactions@[i]
                        == i
                &&& entries
                &&& data_slices@.len() == 0
            },
            _ => false,
        },
{
}

} // verus!
