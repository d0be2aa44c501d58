//! Messages of the parser that decodes updates in full, encoded and parsed again.
use vstd::prelude::*;

use crate::account;
use crate::account::{AccountContent, MessageAccountView};
use crate::codec::Timestamp;
use crate::encode;
use crate::filter;
use crate::geyser;
use crate::geyser::{
    AccountInfoView, AccountView, BlockMetaView, BlockView, EntryView, SlotView, TransactionInfoView,
};
use crate::message::{
    MessageBlockView, MessageEntryView, MessageTransactionView, MessageView, ParseFailure,
};
use crate::parser;
use crate::round_trip;
use crate::stream;
use crate::stream::UpdateView;
use crate::update;
use crate::wire;
use crate::wire::WireType;

verus! {

/// Whether the message is one that the parser made.
#[verifier::opaque]
pub open spec fn parsed(m: MessageView) -> bool {
    exists|data: Seq<u8>| #[trigger]
        parser::prost_message(data) == Ok::<MessageView, ParseFailure>(m)
}

/// The parts of a block.
pub ghost struct BlockParts {
    pub meta: BlockMetaView,
    pub transactions: Seq<TransactionInfoView>,
    pub updated_account_count: u64,
    pub accounts: Seq<AccountInfoView>,
    pub entries: Seq<EntryView>,
}

/// A block of the parts, each of them encoded.
pub open spec fn block_of(b: BlockParts) -> BlockView {
    BlockView {
        meta: b.meta,
        transactions: geyser::transactions_bytes(b.transactions),
        updated_account_count: b.updated_account_count,
        accounts: geyser::accounts_bytes(b.accounts),
        entries: geyser::entries_bytes(b.entries),
    }
}

/// A block update of the parts.
pub open spec fn parts_bytes(b: BlockParts) -> Seq<u8> {
    geyser::block_view_bytes(block_of(b))
}

/// Whether the metadata and the transactions were decoded.
pub open spec fn decoded_parts(b: BlockParts) -> bool {
    geyser::decoded_block_meta(b.meta) && geyser::decoded_transactions(b.transactions)
}

/// A block of parts that were decoded is one of encoded parts.
pub proof fn lemma_block_of(b: BlockParts)
    requires
        decoded_parts(b),
    ensures
        geyser::encoded_block(block_of(b)),
{
    let m = block_of(b);
    assert forall|i: int| 0 <= i < m.transactions.len() implies geyser::encoded_transaction(
        #[trigger] m.transactions[i],
    ) by {
        assert(geyser::decoded_transaction(b.transactions[i]));
        assert(m.transactions[i] == encode::transaction_info_bytes(b.transactions[i]));
    }
    assert forall|i: int| 0 <= i < m.accounts.len() implies geyser::encoded_account(
        #[trigger] m.accounts[i],
    ) by {
        assert(m.accounts[i] == encode::account_info_bytes(b.accounts[i]));
    }
    assert forall|i: int| 0 <= i < m.entries.len() implies geyser::encoded_entry(
        #[trigger] m.entries[i],
    ) by {
        assert(m.entries[i] == encode::entry_bytes(b.entries[i]));
    }
}

/// Where all values are there, each is.
proof fn lemma_all_ok<V>(results: Seq<Result<V, ParseFailure>>)
    ensures
        parser::all_ok(results) matches Ok(ms) ==> {
            &&& ms.len() == results.len()
            &&& forall|i: int|
                0 <= i < ms.len() ==> results[i] == Ok::<V, ParseFailure>(#[trigger] ms[i])
        },
        (forall|i: int| 0 <= i < results.len() ==> (#[trigger] results[i]) is Ok) ==> parser::all_ok(
            results,
        ) is Ok,
    decreases results.len(),
{
    if results.len() > 0 {
        let before = results.drop_last();
        lemma_all_ok(before);
        if forall|i: int| 0 <= i < results.len() ==> (#[trigger] results[i]) is Ok {
            assert forall|i: int| 0 <= i < before.len() implies (#[trigger] before[i]) is Ok by {
                assert(before[i] == results[i]);
            }
        }
        if let Ok(ms) = parser::all_ok(results) {
            assert forall|i: int| 0 <= i < ms.len() implies results[i] == Ok::<V, ParseFailure>(
                #[trigger] ms[i],
            ) by {
                if i < before.len() {
                    let first = parser::all_ok(before)->Ok_0;
                    assert(ms[i] == first[i]);
                    assert(before[i] == results[i]);
                }
            }
        }
    }
}

/// The parts of the block message.
pub open spec fn parts_of(m: MessageBlockView) -> BlockParts {
    BlockParts {
        meta: m.block_meta.block_meta(),
        transactions: m.transactions.map_values(
            |t: MessageTransactionView| t->Prost_transaction,
        ),
        updated_account_count: m.accounts.len() as u64,
        accounts: m.accounts.map_values(|a: MessageAccountView| update::account_info(a)),
        entries: m.entries.map_values(|e: MessageEntryView| e->Prost_entry),
    }
}

/// A block message is one of its parts.
proof fn lemma_parts_of(
    b: BlockParts,
    created_at: Timestamp,
    len: nat,
    m: MessageBlockView,
)
    requires
        parser::full_block(b.meta, b.transactions, b.accounts, b.entries, created_at, len) == Ok::<
            MessageBlockView,
            ParseFailure,
        >(m),
    ensures
        parts_of(m) == (BlockParts { updated_account_count: m.accounts.len() as u64, ..b }),
        m.created_at.timestamp() == created_at,
{
    reveal(parser::full_block);
    let txs = b.transactions.map_values(
        |t: TransactionInfoView| parser::full_transaction(t, b.meta.slot, created_at, len),
    );
    let accounts = b.accounts.map_values(
        |a: AccountInfoView|
            parser::full_account(
                a,
                b.meta.slot,
                false,
                created_at,
                parser::size_of(encode::account_info_bytes(a).len() + 96),
            ),
    );
    lemma_all_ok(txs);
    lemma_all_ok(accounts);
    let p = parts_of(m);
    assert forall|i: int| 0 <= i < m.transactions.len() implies p.transactions[i]
        == b.transactions[i] by {
        assert(txs[i] == Ok::<MessageTransactionView, ParseFailure>(m.transactions[i]));
    }
    assert forall|i: int| 0 <= i < m.accounts.len() implies p.accounts[i] == b.accounts[i] by {
        assert(accounts[i] == Ok::<MessageAccountView, ParseFailure>(m.accounts[i]));
    }
    assert(p.transactions =~= b.transactions);
    assert(p.accounts =~= b.accounts);
    assert(p.entries =~= b.entries);
}

/// The update of a block message that is made of its parts holds its parts.
#[verifier::rlimit(30)]
#[verifier::spinoff_prover]
proof fn lemma_block_payload(b: BlockParts, created_at: Timestamp, len: nat, m: MessageBlockView)
    requires
        parser::full_block(b.meta, b.transactions, b.accounts, b.entries, created_at, len) == Ok::<
            MessageBlockView,
            ParseFailure,
        >(m),
        m.accounts.len() <= usize::MAX,
        m.transactions.len() <= usize::MAX,
    ensures
        update::block_payload(
            m,
            update::below(m.accounts.len()),
            update::below(m.transactions.len()),
            true,
            Seq::empty(),
        ) == parts_bytes(parts_of(m)),
{
    reveal(parser::full_block);
    lemma_parts_of(b, created_at, len, m);
    let txs = b.transactions.map_values(
        |t: TransactionInfoView| parser::full_transaction(t, b.meta.slot, created_at, len),
    );
    lemma_all_ok(txs);
    let v = block_of(parts_of(m));
    let none = Seq::<(nat, nat)>::empty();
    let shown = update::transaction_parts(m.transactions, update::below(m.transactions.len()));
    assert forall|i: int| 0 <= i < shown.len() implies shown[i] == v.transactions[i] by {
        assert(txs[i] == Ok::<MessageTransactionView, ParseFailure>(m.transactions[i]));
        assert(update::below(m.transactions.len())[i] == i);
    }
    assert(shown =~= v.transactions);
    let shown = update::account_parts(m.accounts, update::below(m.accounts.len()), none);
    assert forall|i: int| 0 <= i < shown.len() implies shown[i] == v.accounts[i] by {
        assert(update::below(m.accounts.len())[i] == i);
        filter::law_no_slice(update::account_info(m.accounts[i]).data);
        assert(update::sliced_info(m.accounts[i], none) == update::account_info(m.accounts[i]));
    }
    assert(shown =~= v.accounts);
    assert(update::entry_parts(m.entries, true) =~= v.entries);
}

/// The message of a block says the same however long the update was.
#[verifier::rlimit(30)]
#[verifier::spinoff_prover]
proof fn lemma_block_again(
    b: BlockParts,
    created_at: Timestamp,
    len: nat,
    again: nat,
    m: MessageBlockView,
)
    requires
        parser::full_block(b.meta, b.transactions, b.accounts, b.entries, created_at, len) == Ok::<
            MessageBlockView,
            ParseFailure,
        >(m),
    ensures
        parser::full_block(
            b.meta,
            b.transactions,
            b.accounts,
            b.entries,
            created_at,
            again,
        ) matches Ok(m1) && round_trip::same_block(m, m1),
{
    reveal(parser::full_block);
    let slot = b.meta.slot;
    let before = b.transactions.map_values(
        |t: TransactionInfoView| parser::full_transaction(t, slot, created_at, len),
    );
    let after = b.transactions.map_values(
        |t: TransactionInfoView| parser::full_transaction(t, slot, created_at, again),
    );
    lemma_all_ok(before);
    lemma_all_ok(after);
    assert forall|i: int| 0 <= i < after.len() implies (#[trigger] after[i]) is Ok by {
        assert(before[i] == Ok::<MessageTransactionView, ParseFailure>(m.transactions[i]));
    }
    let m1 = parser::full_block(
        b.meta,
        b.transactions,
        b.accounts,
        b.entries,
        created_at,
        again,
    )->Ok_0;
    assert forall|i: int| 0 <= i < m.transactions.len() implies round_trip::same_transaction(
        #[trigger] m.transactions[i],
        m1.transactions[i],
    ) by {
        assert(before[i] == Ok::<MessageTransactionView, ParseFailure>(m.transactions[i]));
        assert(after[i] == Ok::<MessageTransactionView, ParseFailure>(m1.transactions[i]));
    }
}

/// Repeated fields are at least as long as they are many.
proof fn lemma_repeated_len(tag: u32, items: Seq<Seq<u8>>)
    requires
        1 <= tag <= wire::MAX_TAG,
    ensures
        items.len() <= encode::repeated_field(tag, items).len(),
    decreases items.len(),
{
    if items.len() > 0 {
        lemma_repeated_len(tag, items.drop_last());
        wire::lemma_key_round_trip(tag, WireType::LengthDelimited, Seq::empty());
    }
}

/// The write version of an account message that the parser made can be replaced, and that replaces
/// nothing else.
pub proof fn law_full_replaceable(data: Seq<u8>, m: MessageAccountView, v: u64)
    requires
        parser::prost_message(data) == Ok::<MessageView, ParseFailure>(MessageView::Account(m)),
        data.len() + 94 <= usize::MAX,
    ensures
        m.decoded(),
        m.placed(),
        m.replaceable(v),
        account::updated(m, v).content() == (AccountContent {
            info: AccountInfoView { write_version: v, ..m.content().info },
            ..m.content()
        }),
        account::updated(m, v).created_at() == m.created_at(),
{
    reveal(parser::update_message);
    wire::lemma_varint_len(m->Prost_account.write_version);
    account::law_update_write_version(m, v);
}

/// The last of two write versions of an account message that the parser made wins, and leaves no trace of
/// the other: the message is the one in which only the last one was put.
pub proof fn law_full_last_write_version(data: Seq<u8>, m: MessageAccountView, v1: u64, v2: u64)
    requires
        parser::prost_message(data) == Ok::<MessageView, ParseFailure>(MessageView::Account(m)),
        data.len() + 104 <= usize::MAX,
    ensures
        m.replaceable(v1),
        m.replaceable(v2),
        account::updated(m, v1).replaceable(v2),
        account::updated(account::updated(m, v1), v2) == account::updated(m, v2),
        account::updated(m, v2).content().info.write_version == v2,
{
    law_full_replaceable(data, m, v1);
    law_full_replaceable(data, m, v2);
    assert(m is Prost && account::has_room(m)) by {
        reveal(parser::update_message);
    }
    account::law_last_write_version(m, v1, v2);
}

/// What the parser made of bytes is a message that it made.
pub proof fn lemma_parsed(data: Seq<u8>)
    ensures
        parser::prost_message(data) matches Ok(m) ==> parsed(m),
{
    reveal(parsed);
}

/// Whether the message is one that the parser made, and an update that is all of it has the tag, the
/// bytes and the time.
pub open spec fn came_as(
    m: MessageView,
    tag: u32,
    payload: Seq<u8>,
    created_at: Timestamp,
) -> bool {
    parsed(m) && round_trip::message_parts(m) == (tag, payload, created_at)
}

/// The slot update of a slot message.
pub open spec fn slot_of(m: MessageView) -> SlotView {
    let m = m->Slot_0;
    SlotView {
        slot: m.slot(),
        parent: m.parent(),
        status: geyser::slot_status_number(m.status()),
        dead_error: m->Prost_dead_error,
    }
}

/// The slot message of the slot update of a slot message says the same.
#[verifier::rlimit(30)]
#[verifier::spinoff_prover]
pub proof fn lemma_slot(m: MessageView, payload: Seq<u8>, created_at: Timestamp, len: nat)
    requires
        came_as(m, 3, payload, created_at),
    ensures
        payload == encode::slot_bytes(slot_of(m)),
        parser::slot_view_message(slot_of(m), created_at, len) matches Ok(m1)
            && round_trip::same_message(m, m1),
{
    reveal(parsed);
    reveal(parser::update_message);
}

/// The account update of an account message.
pub open spec fn account_of(m: MessageView) -> AccountView {
    let m = m->Account_0;
    AccountView {
        account: Some(update::account_info(m)),
        slot: m.content().slot,
        is_startup: m.content().is_startup,
    }
}

/// The account message of the account update of an account message says the same.
#[verifier::rlimit(30)]
#[verifier::spinoff_prover]
pub proof fn lemma_account(m: MessageView, payload: Seq<u8>, created_at: Timestamp, len: nat)
    requires
        came_as(m, 2, payload, created_at),
    ensures
        payload == encode::account_bytes(account_of(m)),
        parser::account_view_message(account_of(m), created_at, len) matches Ok(m1)
            && round_trip::same_message(m, m1),
{
    reveal(parsed);
    reveal(parser::update_message);
    let a = m->Account_0;
    filter::law_no_slice(update::account_info(a).data);
    assert(update::sliced_info(a, Seq::empty()) == update::account_info(a));
}

/// The message of a transaction.
pub open spec fn transaction_view_message(
    info: TransactionInfoView,
    slot: u64,
    created_at: Timestamp,
    len: nat,
) -> Result<MessageView, ParseFailure> {
    match parser::full_transaction(info, slot, created_at, len) {
        Ok(m) => Ok(MessageView::Transaction(m)),
        Err(e) => Err(e),
    }
}

/// The transaction message of the transaction of a transaction message says the same.
#[verifier::rlimit(30)]
#[verifier::spinoff_prover]
pub proof fn lemma_transaction(m: MessageView, payload: Seq<u8>, created_at: Timestamp, len: nat)
    requires
        came_as(m, 4, payload, created_at),
    ensures
        ({
            let info = m->Transaction_0->Prost_transaction;
            let bytes = encode::transaction_info_bytes(info);
            let slot = m->Transaction_0.slot();
            &&& geyser::decoded_transaction(info)
            &&& geyser::encoded_transaction(bytes)
            &&& payload == encode::transaction_bytes(bytes, slot)
            &&& transaction_view_message(info, slot, created_at, len) matches Ok(m1)
                && round_trip::same_message(m, m1)
        }),
{
    reveal(parsed);
    reveal(parser::update_message);
}

/// The entry message of the entry of an entry message says the same.
#[verifier::rlimit(30)]
#[verifier::spinoff_prover]
pub proof fn lemma_entry(m: MessageView, payload: Seq<u8>, created_at: Timestamp, len: nat)
    requires
        came_as(m, 8, payload, created_at),
    ensures
        payload == encode::entry_bytes(m->Entry_0->Prost_entry),
        round_trip::same_message(
            m,
            MessageView::Entry(parser::full_entry(m->Entry_0->Prost_entry, created_at, len)),
        ),
{
    reveal(parsed);
    reveal(parser::update_message);
}

/// The block metadata message of the metadata of a block metadata message says the same.
#[verifier::rlimit(30)]
#[verifier::spinoff_prover]
pub proof fn lemma_block_meta(m: MessageView, payload: Seq<u8>, created_at: Timestamp, len: nat)
    requires
        came_as(m, 7, payload, created_at),
    ensures
        ({
            let meta = m->BlockMeta_0.block_meta();
            &&& geyser::decoded_block_meta(meta)
            &&& payload == encode::block_meta_bytes(meta)
            &&& parser::full_block_meta(meta, created_at, len) matches Ok(m1)
                && round_trip::same_message(m, MessageView::BlockMeta(m1))
        }),
{
    reveal(parsed);
    reveal(parser::update_message);
}

/// The block message of the parts of a block message says the same.
#[verifier::rlimit(30)]
#[verifier::spinoff_prover]
pub proof fn lemma_block(m: MessageView, payload: Seq<u8>, created_at: Timestamp, len: nat)
    requires
        came_as(m, 5, payload, created_at),
        payload.len() <= usize::MAX,
    ensures
        ({
            let b = parts_of(m->Block_0);
            &&& decoded_parts(b)
            &&& geyser::encoded_block(block_of(b))
            &&& payload == parts_bytes(b)
            &&& parser::full_block(
                b.meta,
                b.transactions,
                b.accounts,
                b.entries,
                created_at,
                len,
            ) matches Ok(m1) && round_trip::same_block(m->Block_0, m1)
        }),
{
    reveal(parsed);
    reveal(parser::update_message);
    reveal(parser::full_block);
    reveal(parser::block_parts);
    let data = choose|data: Seq<u8>| #[trigger]
        parser::prost_message(data) == Ok::<MessageView, ParseFailure>(m);
    let before = geyser::prost_update(data)->Some_0.1->Some_0.1;
    let block = geyser::prost_block(before)->Some_0;
    let transactions = block.transactions.map_values(
        |part: Seq<u8>| parser::decoded(geyser::prost_transaction_info(part)),
    );
    let accounts = block.accounts.map_values(
        |part: Seq<u8>| parser::decoded(geyser::prost_account_info(part)),
    );
    let entries = block.entries.map_values(
        |part: Seq<u8>| parser::decoded(geyser::prost_entry(part)),
    );
    lemma_all_ok(transactions);
    let b = BlockParts {
        meta: block.meta,
        transactions: parser::all_ok(transactions)->Ok_0,
        updated_account_count: 0,
        accounts: parser::all_ok(accounts)->Ok_0,
        entries: parser::all_ok(entries)->Ok_0,
    };
    assert forall|i: int| 0 <= i < b.transactions.len() implies geyser::decoded_transaction(
        #[trigger] b.transactions[i],
    ) by {
        assert(transactions[i] == Ok::<TransactionInfoView, ParseFailure>(b.transactions[i]));
        assert(geyser::prost_transaction_info(block.transactions[i]) == Some(b.transactions[i]));
    }
    let mb = m->Block_0;
    lemma_parts_of(b, created_at, data.len(), mb);
    lemma_repeated_len(
        6,
        update::transaction_parts(mb.transactions, update::below(mb.transactions.len())),
    );
    lemma_repeated_len(
        11,
        update::account_parts(mb.accounts, update::below(mb.accounts.len()), Seq::empty()),
    );
    lemma_block_payload(b, created_at, data.len(), mb);
    lemma_block_again(b, created_at, data.len(), len, mb);
    lemma_block_of(parts_of(mb));
}

/// An update that is all of a message is an encoded update.
pub proof fn lemma_encoded(m: MessageView, tag: u32, payload: Seq<u8>, created_at: Timestamp)
    requires
        came_as(m, tag, payload, created_at),
        payload.len() <= usize::MAX,
    ensures
        geyser::encoded_update(tag, payload),
        2 <= tag <= 10,
{
    match m {
        MessageView::Slot(_) => {
            lemma_slot(m, payload, created_at, 0);
        },
        MessageView::Account(_) => {
            lemma_account(m, payload, created_at, 0);
        },
        MessageView::Transaction(_) => {
            lemma_transaction(m, payload, created_at, 0);
        },
        MessageView::Entry(_) => {
            lemma_entry(m, payload, created_at, 0);
        },
        MessageView::BlockMeta(_) => {
            lemma_block_meta(m, payload, created_at, 0);
        },
        MessageView::Block(_) => {
            lemma_block(m, payload, created_at, 0);
        },
    }
}

/// A message that the parser made can be filtered and encoded, but for the status of a transaction without
/// a signature.
#[verifier::rlimit(30)]
#[verifier::spinoff_prover]
pub proof fn law_full_within_buffer(data: Seq<u8>)
    ensures
        parser::prost_message(data) matches Ok(m) ==> round_trip::within_buffer(m),
{
    reveal(parser::update_message);
    reveal(parser::full_block);
    reveal(parser::block_parts);
    if let Ok(MessageView::Block(m)) = parser::prost_message(data) {
        let (_, update, created_at) = geyser::prost_update(data)->Some_0;
        let parts = parser::block_parts(update->Some_0.1)->Ok_0;
        let ts = created_at->Some_0;
        let slot = parts.0.slot;
        let transactions = parts.1.map_values(
            |t: TransactionInfoView| parser::full_transaction(t, slot, ts, data.len()),
        );
        let accounts = parts.2.map_values(
            |a: AccountInfoView|
                parser::full_account(
                    a,
                    slot,
                    false,
                    ts,
                    parser::size_of(encode::account_info_bytes(a).len() + 96),
                ),
        );
        lemma_all_ok(transactions);
        lemma_all_ok(accounts);
        assert forall|i: int| 0 <= i < m.transactions.len() implies (
        #[trigger] m.transactions[i]) is Prost by {
            assert(transactions[i] == Ok::<MessageTransactionView, ParseFailure>(
                m.transactions[i],
            ));
        }
        assert forall|i: int| 0 <= i < m.accounts.len() implies (#[trigger] m.accounts[i]) is Prost by {
            assert(accounts[i] == Ok::<MessageAccountView, ParseFailure>(m.accounts[i]));
        }
    }
}

// ---------------------------------------------------------------------------------------------
// Blocks of which parts passed
// ---------------------------------------------------------------------------------------------

/// The block message of the parts.
pub open spec fn parts_message(b: BlockParts, created_at: Timestamp, len: nat) -> Result<
    MessageView,
    ParseFailure,
> {
    match parser::full_block(b.meta, b.transactions, b.accounts, b.entries, created_at, len) {
        Ok(m) => Ok(MessageView::Block(m)),
        Err(e) => Err(e),
    }
}

/// Of a block message, the parts at the indices, and of the data of the accounts what `slices` ask for.
pub open spec fn shown_parts(
    m: MessageBlockView,
    accounts: Seq<usize>,
    transactions: Seq<usize>,
    entries: bool,
    slices: Seq<(nat, nat)>,
) -> BlockParts {
    BlockParts {
        meta: m.block_meta->Prost_block_meta,
        transactions: Seq::new(
            transactions.len(),
            |j: int| m.transactions[transactions[j] as int]->Prost_transaction,
        ),
        updated_account_count: m.accounts.len() as u64,
        accounts: Seq::new(
            accounts.len(),
            |j: int|
                {
                    let a = m.accounts[accounts[j] as int]->Prost_account;
                    AccountInfoView { data: filter::slice_of(slices, a.data), ..a }
                },
        ),
        entries: if entries {
            Seq::new(m.entries.len(), |j: int| m.entries[j]->Prost_entry)
        } else {
            Seq::empty()
        },
    }
}

/// The parts of a block message that the parser made.
#[verifier::rlimit(30)]
#[verifier::spinoff_prover]
proof fn lemma_members(m: MessageBlockView) -> (len: nat)
    requires
        parsed(MessageView::Block(m)),
    ensures
        m.block_meta is Prost,
        geyser::decoded_block_meta(m.block_meta->Prost_block_meta),
        m.block_meta->Prost_block_meta.block_height == Some(m.block_meta->Prost_block_height),
        m.block_meta->Prost_created_at == m.created_at.timestamp(),
        m.created_at is Prost,
        forall|i: int|
            0 <= i < m.accounts.len() ==> {
                let a = #[trigger] m.accounts[i];
                &&& a is Prost
                &&& a->Prost_account.pubkey.len() == 32
                &&& a->Prost_account.owner.len() == 32
                &&& a->Prost_pubkey == a->Prost_account.pubkey
                &&& a->Prost_owner == a->Prost_account.owner
                &&& a->Prost_slot == m.block_meta->Prost_block_meta.slot
                &&& !a->Prost_is_startup
                &&& a->Prost_created_at == m.created_at.timestamp()
            },
        forall|i: int|
            0 <= i < m.transactions.len() ==> {
                let t = #[trigger] m.transactions[i];
                &&& t is Prost
                &&& geyser::decoded_transaction(t->Prost_transaction)
                &&& parser::full_transaction(
                    t->Prost_transaction,
                    m.block_meta->Prost_block_meta.slot,
                    m.created_at.timestamp(),
                    len,
                ) == Ok::<MessageTransactionView, ParseFailure>(t)
            },
        forall|i: int|
            0 <= i < m.entries.len() ==> {
                let e = #[trigger] m.entries[i];
                &&& e is Prost
                &&& e->Prost_created_at == m.created_at.timestamp()
            },
{
    reveal(parsed);
    reveal(parser::update_message);
    reveal(parser::full_block);
    reveal(parser::block_parts);
    let data = choose|data: Seq<u8>| #[trigger]
        parser::prost_message(data) == Ok::<MessageView, ParseFailure>(MessageView::Block(m));
    let before = geyser::prost_update(data)->Some_0.1->Some_0.1;
    let block = geyser::prost_block(before)->Some_0;
    let ts = m.created_at.timestamp();
    let slot = block.meta.slot;
    let decoded = block.transactions.map_values(
        |part: Seq<u8>| parser::decoded(geyser::prost_transaction_info(part)),
    );
    lemma_all_ok(decoded);
    let infos = parser::all_ok(decoded)->Ok_0;
    let txs = infos.map_values(
        |t: TransactionInfoView| parser::full_transaction(t, slot, ts, data.len()),
    );
    lemma_all_ok(txs);
    let decoded_accounts = block.accounts.map_values(
        |part: Seq<u8>| parser::decoded(geyser::prost_account_info(part)),
    );
    let account_infos = parser::all_ok(decoded_accounts)->Ok_0;
    let accounts = account_infos.map_values(
        |a: AccountInfoView|
            parser::full_account(
                a,
                slot,
                false,
                ts,
                parser::size_of(encode::account_info_bytes(a).len() + 96),
            ),
    );
    lemma_all_ok(accounts);
    assert forall|i: int| 0 <= i < m.accounts.len() implies {
        let a = #[trigger] m.accounts[i];
        &&& a is Prost
        &&& a->Prost_account.pubkey.len() == 32
        &&& a->Prost_account.owner.len() == 32
        &&& a->Prost_pubkey == a->Prost_account.pubkey
        &&& a->Prost_owner == a->Prost_account.owner
        &&& a->Prost_slot == m.block_meta->Prost_block_meta.slot
        &&& !a->Prost_is_startup
        &&& a->Prost_created_at == m.created_at.timestamp()
    } by {
        assert(accounts[i] == Ok::<MessageAccountView, ParseFailure>(m.accounts[i]));
    }
    assert forall|i: int| 0 <= i < m.transactions.len() implies {
        let t = #[trigger] m.transactions[i];
        &&& t is Prost
        &&& geyser::decoded_transaction(t->Prost_transaction)
        &&& parser::full_transaction(
            t->Prost_transaction,
            m.block_meta->Prost_block_meta.slot,
            m.created_at.timestamp(),
            data.len(),
        ) == Ok::<MessageTransactionView, ParseFailure>(t)
    } by {
        assert(txs[i] == Ok::<MessageTransactionView, ParseFailure>(m.transactions[i]));
        assert(decoded[i] == Ok::<TransactionInfoView, ParseFailure>(infos[i]));
        assert(geyser::prost_transaction_info(block.transactions[i]) == Some(infos[i]));
    }
    data.len()
}

/// A block update is that of the parts that passed.
proof fn lemma_shown(
    m: MessageBlockView,
    accounts: Seq<usize>,
    transactions: Seq<usize>,
    entries: bool,
    slices: Seq<(nat, nat)>,
)
    requires
        parsed(MessageView::Block(m)),
        update::block_encodable(m, accounts, transactions, entries),
    ensures
        ({
            let b = shown_parts(m, accounts, transactions, entries, slices);
            &&& update::block_payload(m, accounts, transactions, entries, slices) == parts_bytes(b)
            &&& decoded_parts(b)
            &&& geyser::encoded_block(block_of(b))
        }),
{
    let _ = lemma_members(m);
    let b = shown_parts(m, accounts, transactions, entries, slices);
    let v = block_of(b);
    assert forall|j: int| 0 <= j < b.transactions.len() implies geyser::decoded_transaction(
        #[trigger] b.transactions[j],
    ) by {
        let i = transactions[j];
        assert(m.transactions[i as int] is Prost);
    }
    lemma_block_of(b);
    let shown = update::transaction_parts(m.transactions, transactions);
    assert forall|j: int| 0 <= j < shown.len() implies shown[j] == v.transactions[j] by {
        let i = transactions[j];
        assert(m.transactions[i as int] is Prost);
    }
    assert(shown =~= v.transactions);
    let shown = update::account_parts(m.accounts, accounts, slices);
    assert forall|j: int| 0 <= j < shown.len() implies shown[j] == v.accounts[j] by {
        let i = accounts[j];
        assert(m.accounts[i as int] is Prost);
    }
    assert(shown =~= v.accounts);
    let shown = update::entry_parts(m.entries, entries);
    assert forall|j: int| 0 <= j < shown.len() implies shown[j] == v.entries[j] by {
        assert(m.entries[j] is Prost);
    }
    assert(shown =~= v.entries);
}

/// Of a block message that the parser made, an update of the parts that passed is read back as a block
/// update and, parsed again, gives a block message of just these parts: each account as it was but for
/// its data, of which it holds what `slices` ask for, and each transaction and each entry as it was.
#[verifier::rlimit(40)]
#[verifier::spinoff_prover]
pub proof fn law_sliced_block_round_trip(
    m: MessageBlockView,
    accounts: Seq<usize>,
    transactions: Seq<usize>,
    entries: bool,
    slices: Seq<(nat, nat)>,
    len: nat,
)
    requires
        parsed(MessageView::Block(m)),
        update::block_encodable(m, accounts, transactions, entries),
    ensures
        ({
            let b = shown_parts(m, accounts, transactions, entries, slices);
            let payload = update::block_payload(m, accounts, transactions, entries, slices);
            &&& payload == parts_bytes(b)
            &&& decoded_parts(b)
            &&& stream::encoded_as(UpdateView::Block(block_of(b)), 5, payload)
            &&& parts_message(b, m.created_at.timestamp(), len) matches Ok(MessageView::Block(m1)) && {
                &&& m1.accounts.len() == accounts.len()
                &&& forall|j: int|
                    0 <= j < m1.accounts.len() ==> {
                        let before = m.accounts[accounts[j] as int];
                        let after = (#[trigger] m1.accounts[j]);
                        let a = before.content().info;
                        let a1 = after.content().info;
                        &&& a1.pubkey == a.pubkey
                        &&& a1.lamports == a.lamports
                        &&& a1.owner == a.owner
                        &&& a1.executable == a.executable
                        &&& a1.rent_epoch == a.rent_epoch
                        &&& a1.data == filter::slice_of(slices, a.data)
                        &&& slices.len() == 0 ==> a1.data == a.data
                        &&& slices.len() == 1 && slices[0].0 <= slices[0].1 ==> a1.data == if slices[0].1
                            <= a.data.len() {
                            a.data.subrange(slices[0].0 as int, slices[0].1 as int)
                        } else {
                            Seq::empty()
                        }
                        &&& a1.write_version == a.write_version
                        &&& a1.txn_signature == a.txn_signature
                        &&& after.content().slot == before.content().slot
                        &&& after.content().is_startup == before.content().is_startup
                        &&& after.created_at() == before.created_at()
                    }
                &&& m1.transactions.len() == transactions.len()
                &&& forall|j: int|
                    0 <= j < m1.transactions.len() ==> round_trip::same_transaction(
                        m.transactions[transactions[j] as int],
                        #[trigger] m1.transactions[j],
                    )
                &&& m1.entries.len() == if entries {
                    m.entries.len()
                } else {
                    0
                }
                &&& forall|j: int|
                    0 <= j < m1.entries.len() ==> round_trip::same_entry(
                        m.entries[j],
                        #[trigger] m1.entries[j],
                    )
                &&& round_trip::same_block_meta(m.block_meta, m1.block_meta)
                &&& m1.created_at == m.created_at
            }
        }),
{
    lemma_shown(m, accounts, transactions, entries, slices);
    let was = lemma_members(m);
    let b = shown_parts(m, accounts, transactions, entries, slices);
    let ts = m.created_at.timestamp();
    let slot = b.meta.slot;
    reveal(parser::full_block);
    let txs = b.transactions.map_values(
        |t: TransactionInfoView| parser::full_transaction(t, slot, ts, len),
    );
    let accs = b.accounts.map_values(
        |a: AccountInfoView|
            parser::full_account(
                a,
                slot,
                false,
                ts,
                parser::size_of(encode::account_info_bytes(a).len() + 96),
            ),
    );
    assert forall|j: int| 0 <= j < txs.len() implies (#[trigger] txs[j]) is Ok by {
        let i = transactions[j];
        assert(m.transactions[i as int] is Prost);
    }
    assert forall|j: int| 0 <= j < accs.len() implies (#[trigger] accs[j]) is Ok by {
        let i = accounts[j];
        assert(m.accounts[i as int] is Prost);
    }
    lemma_all_ok(txs);
    lemma_all_ok(accs);
    let m1 = parser::full_block(b.meta, b.transactions, b.accounts, b.entries, ts, len)->Ok_0;
    assert forall|j: int| 0 <= j < m1.accounts.len() implies {
        let before = m.accounts[accounts[j] as int];
        let after = (#[trigger] m1.accounts[j]);
        &&& after.content().info == (AccountInfoView {
            data: filter::slice_of(slices, before.content().info.data),
            ..before.content().info
        })
        &&& slices.len() == 0 ==> after.content().info.data == before.content().info.data
        &&& slices.len() == 1 && slices[0].0 <= slices[0].1 ==> after.content().info.data == if slices[0].1
            <= before.content().info.data.len() {
            before.content().info.data.subrange(slices[0].0 as int, slices[0].1 as int)
        } else {
            Seq::empty()
        }
        &&& after.content().slot == before.content().slot
        &&& after.content().is_startup == before.content().is_startup
        &&& after.created_at() == before.created_at()
    } by {
        let i = accounts[j];
        assert(m.accounts[i as int] is Prost);
        assert(accs[j] == Ok::<MessageAccountView, ParseFailure>(m1.accounts[j]));
        let data = m.accounts[i as int].content().info.data;
        if slices.len() == 0 {
            assert(slices =~= Seq::<(nat, nat)>::empty());
            filter::law_no_slice(data);
        }
        if slices.len() == 1 && slices[0].0 <= slices[0].1 {
            assert(slices =~= seq![(slices[0].0, slices[0].1)]);
            filter::law_one_slice(slices[0].0, slices[0].1, data);
        }
    }
    assert forall|j: int| 0 <= j < m1.transactions.len() implies round_trip::same_transaction(
        m.transactions[transactions[j] as int],
        #[trigger] m1.transactions[j],
    ) by {
        let i = transactions[j];
        assert(m.transactions[i as int] is Prost);
        assert(txs[j] == Ok::<MessageTransactionView, ParseFailure>(m1.transactions[j]));
    }
    assert forall|j: int| 0 <= j < m1.entries.len() implies round_trip::same_entry(
        m.entries[j],
        #[trigger] m1.entries[j],
    ) by {
        assert(m.entries[j] is Prost);
    }
}

} // verus!
