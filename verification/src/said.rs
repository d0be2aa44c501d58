//! What messages say of the updates that they were made of.
use vstd::prelude::*;

use crate::account::MessageAccountView;
use crate::block;
use crate::codec;
use crate::codec::Timestamp;
use crate::decode::{LimitedDecode, SubscribeUpdateLimitedDecode, UpdateModel};
use crate::encode;
use crate::error::{DecodeErrorKind, Failure};
use crate::fields::FieldStep;
use crate::geyser::{
    AccountInfoView, AccountView, BlockMetaView, EntryView, SlotStatus, SlotView,
    TransactionBodyView, TransactionInfoView, TransactionMetaView,
};
use crate::message;
use crate::message::{
    MessageBlockCreatedAt, MessageBlockMetaView, MessageBlockView, MessageEntryView,
    MessageParserEncoding, MessageSlotView, MessageTransactionView, MessageView, ParseFailure,
};
use crate::parser;
use crate::round_trip;
use crate::taken;
use crate::wire;
use crate::wire::WireType;

verus! {

// ---------------------------------------------------------------------------------------------
// Updates that are decoded in full
// ---------------------------------------------------------------------------------------------

/// A slot message says what the update said. There is none where the status is no status.
pub proof fn law_full_slot(m: SlotView, created_at: Timestamp, len: nat)
    ensures
        match parser::full_slot(m, created_at, len) {
            Ok(r) => {
                &&& r.slot() == m.slot
                &&& r.parent() == m.parent
                &&& r.status() == SlotStatus::SlotProcessed <==> m.status == 0
                &&& r.status() == SlotStatus::SlotConfirmed <==> m.status == 1
                &&& r.status() == SlotStatus::SlotFinalized <==> m.status == 2
                &&& r.status() == SlotStatus::SlotFirstShredReceived <==> m.status == 3
                &&& r.status() == SlotStatus::SlotCompleted <==> m.status == 4
                &&& r.status() == SlotStatus::SlotCreatedBank <==> m.status == 5
                &&& r.status() == SlotStatus::SlotDead <==> m.status == 6
                &&& r.dead_error_bytes() == match m.dead_error {
                    Some(text) => Some(vstd::utf8::encode_utf8(text)),
                    None => None,
                }
                &&& r.created_at() == created_at
                &&& r.encoding() == MessageParserEncoding::Prost
                &&& r.size() == len
            },
            Err(e) => (m.status < 0 || m.status > 6) && e == ParseFailure::InvalidEnumValue(m.status),
        },
{
}

/// An account message says what the update said. There is none where a key has not 32 bytes.
pub proof fn law_full_account(
    m: AccountInfoView,
    slot: u64,
    is_startup: bool,
    created_at: Timestamp,
    size: nat,
)
    ensures
        match parser::full_account(m, slot, is_startup, created_at, size) {
            Ok(r) => {
                &&& m.pubkey.len() == 32
                &&& m.owner.len() == 32
                &&& r.content().info.pubkey == m.pubkey
                &&& r.content().info.lamports == m.lamports
                &&& r.content().info.owner == m.owner
                &&& r.content().info.executable == m.executable
                &&& r.content().info.rent_epoch == m.rent_epoch
                &&& r.content().info.data == m.data
                &&& r.content().info.write_version == m.write_version
                &&& r.content().info.txn_signature == m.txn_signature
                &&& r.content().slot == slot
                &&& r.content().is_startup == is_startup
                &&& r.created_at() == created_at
                &&& r is Prost
            },
            Err(e) => {
                &&& m.pubkey.len() != 32 || m.owner.len() != 32
                &&& e == ParseFailure::InvalidPubkey
            },
        },
{
}

/// Whether the key is one of the transaction or one that it loaded.
pub open spec fn lists(t: TransactionBodyView, meta: TransactionMetaView, key: Seq<u8>) -> bool {
    ||| t.account_keys is Some && t.account_keys->Some_0.contains(key)
    ||| meta.loaded_writable_addresses.contains(key)
    ||| meta.loaded_readonly_addresses.contains(key)
}

/// A transaction message says what the update said: the slot, the index, the signature, the error, whether
/// it is a vote, and as keys those of the transaction and those that it loaded, and no others. There is
/// none where the metadata or the transaction is missing, or a key has not 32 bytes.
pub proof fn law_full_transaction(
    m: TransactionInfoView,
    slot: u64,
    created_at: Timestamp,
    len: nat,
    key: Seq<u8>,
)
    ensures
        match parser::full_transaction(m, slot, created_at, len) {
            Ok(r) => {
                &&& m.meta matches Some(meta) && m.transaction matches Some(t) && {
                    &&& r.slot() == slot
                    &&& r.vote() == m.is_vote
                    &&& r.index() == m.index
                    &&& r.error() == meta.err
                    &&& r.failed() <==> meta.err is Some
                    &&& r.signed()
                    &&& r.signature() == m.signature
                    &&& r.transaction() == Ok::<TransactionInfoView, &'static str>(m)
                    &&& r.created_at() == created_at
                    &&& r.encoding() == MessageParserEncoding::Prost
                    &&& r.account_keys().contains(key) <==> lists(t, meta, key)
                    &&& r.keys() == r.account_keys()
                    &&& r.account_keys().contains(key) ==> key.len() == 32
                }
            },
            Err(e) => match e {
                ParseFailure::FieldNotDefined(_) => {
                    ||| m.meta is None && e == ParseFailure::FieldNotDefined("meta")
                    ||| m.meta is Some && m.transaction is None && e
                        == ParseFailure::FieldNotDefined("transaction")
                },
                ParseFailure::InvalidPubkey => {
                    &&& m.meta matches Some(meta) && m.transaction matches Some(t) && exists|k: Seq<u8>|
                        k.len() != 32 && #[trigger] lists(t, meta, k)
                },
                _ => false,
            },
        },
{
    if let (Some(meta), Some(t)) = (m.meta, m.transaction) {
        let first = match t.account_keys {
            Some(keys) => keys,
            None => Seq::empty(),
        };
        let keys = parser::listed_keys(t.account_keys, meta);
        let w = meta.loaded_writable_addresses;
        let o = meta.loaded_readonly_addresses;
        lemma_three(first, w, o, key);
        if !parser::all_keys(keys) {
            let i = choose|i: int| 0 <= i < keys.len() && (#[trigger] keys[i]).len() != 32;
            let k = keys[i];
            assert(keys.contains(k));
            lemma_three(first, w, o, k);
            assert(lists(t, meta, k));
        } else if keys.contains(key) {
            let i = choose|i: int| 0 <= i < keys.len() && keys[i] == key;
            assert(keys[i].len() == 32);
        }
    }
}

/// What one of three sequences holds.
proof fn lemma_three(a: Seq<Seq<u8>>, b: Seq<Seq<u8>>, c: Seq<Seq<u8>>, key: Seq<u8>)
    ensures
        (a + b + c).contains(key) <==> a.contains(key) || b.contains(key) || c.contains(key),
        (a + b + c).to_set().contains(key) <==> (a + b + c).contains(key),
{
    let all = a + b + c;
    if a.contains(key) {
        let i = choose|i: int| 0 <= i < a.len() && a[i] == key;
        assert(all[i] == key);
    }
    if b.contains(key) {
        let i = choose|i: int| 0 <= i < b.len() && b[i] == key;
        assert(all[a.len() + i] == key);
    }
    if c.contains(key) {
        let i = choose|i: int| 0 <= i < c.len() && c[i] == key;
        assert(all[a.len() + b.len() + i] == key);
    }
    if all.contains(key) {
        let i = choose|i: int| 0 <= i < all.len() && all[i] == key;
        if i < a.len() {
            assert(a[i] == key);
        } else if i < a.len() + b.len() {
            assert(b[i - a.len()] == key);
        } else {
            assert(c[i - a.len() - b.len()] == key);
        }
    }
}

/// An entry message says what the update said.
pub proof fn law_full_entry(m: EntryView, created_at: Timestamp, len: nat)
    ensures
        ({
            let r = parser::full_entry(m, created_at, len);
            &&& r.slot() == m.slot
            &&& r.index() == m.index
            &&& r.executed_transaction_count() == m.executed_transaction_count
            &&& r.created_at() == created_at
            &&& r.encoding() == MessageParserEncoding::Prost
            &&& r.size() == len
        }),
{
}

/// A block metadata message says what the update said. There is none where the height is missing.
pub proof fn law_full_block_meta(m: BlockMetaView, created_at: Timestamp, len: nat)
    ensures
        match parser::full_block_meta(m, created_at, len) {
            Ok(r) => {
                &&& m.block_height == Some(r.block_height())
                &&& r.slot() == m.slot
                &&& r.executed_transaction_count() == m.executed_transaction_count
                &&& r.entries_count() == m.entries_count
                &&& r.block_meta() == m
                &&& r.created_at() == created_at
                &&& r.encoding() == MessageParserEncoding::Prost
                &&& r.size() == len
            },
            Err(e) => {
                m.block_height is None && e == ParseFailure::FieldNotDefined("block_height")
            },
        },
{
}

/// Where all values are there, they are those in order; and one failure is enough for there to be none.
pub proof fn lemma_all_ok<V>(results: Seq<Result<V, ParseFailure>>)
    ensures
        match parser::all_ok(results) {
            Ok(ms) => {
                &&& ms.len() == results.len()
                &&& forall|i: int|
                    0 <= i < ms.len() ==> results[i] == Ok::<V, ParseFailure>(#[trigger] ms[i])
                &&& forall|i: int| 0 <= i < results.len() ==> (#[trigger] results[i]) is Ok
            },
            Err(e) => exists|i: int|
                0 <= i < results.len() && (#[trigger] results[i]) == Err::<V, ParseFailure>(e),
        },
    decreases results.len(),
{
    if results.len() > 0 {
        let before = results.drop_last();
        lemma_all_ok(before);
        match parser::all_ok(results) {
            Ok(ms) => {
                let first = parser::all_ok(before)->Ok_0;
                assert forall|i: int| 0 <= i < ms.len() implies results[i] == Ok::<V, ParseFailure>(
                    #[trigger] ms[i],
                ) by {
                    if i < before.len() {
                        assert(ms[i] == first[i]);
                        assert(before[i] == results[i]);
                    }
                }
                assert forall|i: int| 0 <= i < results.len() implies (#[trigger] results[i]) is Ok by {
                    assert(results[i] == Ok::<V, ParseFailure>(ms[i]));
                }
            },
            Err(e) => {
                if parser::all_ok(before) is Err {
                    let i = choose|i: int|
                        0 <= i < before.len() && (#[trigger] before[i]) == Err::<V, ParseFailure>(e);
                    assert(results[i] == before[i]);
                } else {
                    assert(results[results.len() - 1] == Err::<V, ParseFailure>(e));
                }
            },
        }
    }
}

/// A block message holds a message of each of the accounts, transactions and entries, in order, and of
/// the metadata, all with the slot of the block and the time of the update. There is none where one of
/// these cannot be made.
#[verifier::rlimit(30)]
#[verifier::spinoff_prover]
pub proof fn law_full_block(
    meta: BlockMetaView,
    transactions: Seq<TransactionInfoView>,
    accounts: Seq<AccountInfoView>,
    entries: Seq<EntryView>,
    created_at: Timestamp,
    len: nat,
)
    ensures
        match parser::full_block(meta, transactions, accounts, entries, created_at, len) {
            Ok(r) => {
                &&& r.slot() == meta.slot
                &&& r.created_at == MessageBlockCreatedAt::Prost(created_at)
                &&& r.block_meta.block_meta() == meta
                &&& r.block_meta.created_at() == created_at
                &&& meta.block_height == Some(r.block_meta.block_height())
                &&& r.accounts.len() == accounts.len()
                &&& forall|i: int|
                    0 <= i < accounts.len() ==> {
                        let a = #[trigger] r.accounts[i];
                        &&& a is Prost
                        &&& a.content().info == accounts[i]
                        &&& a.content().slot == meta.slot
                        &&& !a.content().is_startup
                        &&& a.created_at() == created_at
                    }
                &&& r.transactions.len() == transactions.len()
                &&& forall|i: int|
                    0 <= i < transactions.len() ==> {
                        let t = #[trigger] r.transactions[i];
                        &&& parser::full_transaction(
                            transactions[i],
                            meta.slot,
                            created_at,
                            len,
                        ) == Ok::<MessageTransactionView, ParseFailure>(t)
                        &&& t.slot() == meta.slot
                        &&& t.signature() == transactions[i].signature
                        &&& t.created_at() == created_at
                    }
                &&& r.entries.len() == entries.len()
                &&& forall|i: int|
                    0 <= i < entries.len() ==> {
                        let e = #[trigger] r.entries[i];
                        &&& e is Prost
                        &&& e->Prost_entry == entries[i]
                        &&& e.created_at() == created_at
                    }
            },
            Err(_) => {
                ||| meta.block_height is None
                ||| exists|i: int|
                    {
                        &&& 0 <= i < accounts.len()
                        &&& {
                            ||| (#[trigger] accounts[i]).pubkey.len() != 32
                            ||| accounts[i].owner.len() != 32
                        }
                    }
                ||| exists|i: int|
                    0 <= i < transactions.len() && parser::full_transaction(
                        #[trigger] transactions[i],
                        meta.slot,
                        created_at,
                        len,
                    ) is Err
            },
        },
{
    reveal(parser::full_block);
    let txs = transactions.map_values(
        |t: TransactionInfoView| parser::full_transaction(t, meta.slot, created_at, len),
    );
    let accs = accounts.map_values(
        |a: AccountInfoView|
            parser::full_account(
                a,
                meta.slot,
                false,
                created_at,
                parser::size_of(encode::account_info_bytes(a).len() + 96),
            ),
    );
    lemma_all_ok(txs);
    lemma_all_ok(accs);
    match parser::full_block(meta, transactions, accounts, entries, created_at, len) {
        Ok(r) => {
            assert forall|i: int| 0 <= i < accounts.len() implies {
                let a = #[trigger] r.accounts[i];
                &&& a is Prost
                &&& a.content().info == accounts[i]
                &&& a.content().slot == meta.slot
                &&& !a.content().is_startup
                &&& a.created_at() == created_at
            } by {
                assert(accs[i] == Ok::<MessageAccountView, ParseFailure>(r.accounts[i]));
            }
            assert forall|i: int| 0 <= i < transactions.len() implies {
                let t = #[trigger] r.transactions[i];
                &&& parser::full_transaction(transactions[i], meta.slot, created_at, len) == Ok::<
                    MessageTransactionView,
                    ParseFailure,
                >(t)
                &&& t.slot() == meta.slot
                &&& t.signature() == transactions[i].signature
                &&& t.created_at() == created_at
            } by {
                assert(txs[i] == Ok::<MessageTransactionView, ParseFailure>(r.transactions[i]));
            }
        },
        Err(_) => {
            if parser::all_ok(accs) is Err {
                let i = choose|i: int| 0 <= i < accs.len() && (#[trigger] accs[i]) is Err;
                assert(accounts[i].pubkey.len() != 32 || accounts[i].owner.len() != 32);
            } else if parser::all_ok(txs) is Err {
                let i = choose|i: int| 0 <= i < txs.len() && (#[trigger] txs[i]) is Err;
                assert(parser::full_transaction(transactions[i], meta.slot, created_at, len) is Err);
            }
        },
    }
}

/// No message is made of a ping, a pong or the status of a transaction, nor of a block by the parser that
/// extracts only what is required; which of these it was, the failure says.
pub proof fn law_no_message(
    filters: Seq<Seq<char>>,
    tag: u32,
    payload: Seq<u8>,
    created_at: Timestamp,
    len: nat,
)
    requires
        2 <= tag <= 10,
        encode::envelope_bytes(filters, tag, payload, created_at).len() <= u64::MAX,
    ensures
        ({
            let data = encode::envelope_bytes(filters, tag, payload, created_at);
            let limited = message::limited_message(data);
            let full = parser::update_message(tag, payload, created_at, len);
            &&& tag == 5 ==> limited == Err::<MessageView, ParseFailure>(
                ParseFailure::InvalidUpdateMessage("Block"),
            )
            &&& tag == 6 ==> limited == Err::<MessageView, ParseFailure>(
                ParseFailure::InvalidUpdateMessage("Ping"),
            ) && full == limited
            &&& tag == 9 ==> limited == Err::<MessageView, ParseFailure>(
                ParseFailure::InvalidUpdateMessage("Pong"),
            ) && full == limited
            &&& tag == 10 ==> limited == Err::<MessageView, ParseFailure>(
                ParseFailure::InvalidUpdateMessage("TransactionStatus"),
            ) && full == limited
            &&& limited matches Ok(m) ==> {
                &&& m is Account <==> tag == 2
                &&& m is Slot <==> tag == 3
                &&& m is Transaction <==> tag == 4
                &&& m is BlockMeta <==> tag == 7
                &&& m is Entry <==> tag == 8
            }
            &&& full matches Ok(m) ==> {
                &&& m is Account <==> tag == 2
                &&& m is Slot <==> tag == 3
                &&& m is Transaction <==> tag == 4
                &&& m is Block <==> tag == 5
                &&& m is BlockMeta <==> tag == 7
                &&& m is Entry <==> tag == 8
            }
        }),
{
    reveal(parser::update_message);
    round_trip::law_envelope(filters, tag, payload, created_at);
}

// ---------------------------------------------------------------------------------------------
// Times and sizes
// ---------------------------------------------------------------------------------------------

/// A time counts as many whole milliseconds as there are in its nanoseconds.
pub proof fn law_millis(ts: Timestamp)
    requires
        0 <= ts.seconds,
        0 <= ts.nanos < 1_000_000_000,
    ensures
        message::millis_of(ts) == (ts.seconds * 1_000_000_000 + ts.nanos) / 1_000_000,
{
    let s = ts.seconds as int;
    let n = ts.nanos as int;
    assert((s * 1_000_000_000 + n) / 1_000_000 == s * 1_000 + n / 1_000_000) by (nonlinear_arith)
        requires
            s >= 0,
            n >= 0,
    ;
}

/// A message that keeps the bytes of its update costs at least these to keep, and a transaction twice as
/// much and 32 bytes more for each key that there is room for.
pub proof fn law_sizes(m: MessageView, capacities: Seq<nat>)
    ensures
        match m {
            MessageView::Slot(MessageSlotView::Limited { buffer, .. }) => m.size_with(capacities)
                == buffer.len() + 64,
            MessageView::Entry(MessageEntryView::Limited { buffer, .. }) => m.size_with(capacities)
                == buffer.len() + 52,
            MessageView::BlockMeta(MessageBlockMetaView::Limited { buffer, .. }) => m.size_with(
                capacities,
            ) == 2 * buffer.len(),
            MessageView::Transaction(MessageTransactionView::Limited { buffer, .. }) => m.size_with(
                capacities,
            ) == 2 * buffer.len() + 32 * capacities[0],
            MessageView::Slot(MessageSlotView::Prost { size, .. }) => m.size_with(capacities) == size,
            MessageView::Entry(MessageEntryView::Prost { size, .. }) => m.size_with(capacities)
                == size,
            MessageView::BlockMeta(MessageBlockMetaView::Prost { size, .. }) => m.size_with(
                capacities,
            ) == size,
            MessageView::Transaction(MessageTransactionView::Prost { size, .. }) => m.size_with(
                capacities,
            ) == size + 32 * capacities[0],
            MessageView::Account(a) => m.size_with(capacities) == a.size(),
            MessageView::Block(_) => true,
        },
{
}

/// A block with one more account, transaction or entry costs as much more as that costs, and an empty one
/// what its metadata costs.
pub proof fn law_block_size(
    m: MessageBlockView,
    a: MessageAccountView,
    t: MessageTransactionView,
    e: MessageEntryView,
    capacities: Seq<nat>,
    capacity: nat,
)
    requires
        capacities.len() == m.transactions.len(),
    ensures
        (MessageBlockView { accounts: m.accounts.push(a), ..m }).size_with(capacities)
            == m.size_with(capacities) + a.size(),
        (MessageBlockView { transactions: m.transactions.push(t), ..m }).size_with(
            capacities.push(capacity),
        ) == m.size_with(capacities) + t.size_with(capacity),
        (MessageBlockView { entries: m.entries.push(e), ..m }).size_with(capacities) == m.size_with(
            capacities,
        ) + e.size(),
        (MessageBlockView {
            accounts: Seq::empty(),
            transactions: Seq::empty(),
            entries: Seq::empty(),
            ..m
        }).size_with(Seq::empty()) == m.block_meta.size(),
{
    let sizes = m.accounts.map_values(|x: MessageAccountView| x.size());
    lemma_total_push(sizes, a.size());
    assert(m.accounts.push(a).map_values(|x: MessageAccountView| x.size()) =~= sizes.push(a.size()));
    let sizes = m.entries.map_values(|x: MessageEntryView| x.size());
    lemma_total_push(sizes, e.size());
    assert(m.entries.push(e).map_values(|x: MessageEntryView| x.size()) =~= sizes.push(e.size()));
    let sizes = m.transactions.map(|i: int, x: MessageTransactionView| x.size_with(capacities[i]));
    lemma_total_push(sizes, t.size_with(capacity));
    let more = capacities.push(capacity);
    assert(m.transactions.push(t).map(|i: int, x: MessageTransactionView| x.size_with(more[i]))
        =~= sizes.push(t.size_with(capacity)));
}

/// The sum with one more size.
proof fn lemma_total_push(sizes: Seq<nat>, n: nat)
    ensures
        block::total(sizes.push(n)) == block::total(sizes) + n,
{
    assert(sizes.push(n).drop_last() =~= sizes);
}

// ---------------------------------------------------------------------------------------------
// Blocks
// ---------------------------------------------------------------------------------------------

/// The parts of a block go together where all of them keep the bytes that came, or none of them does.
pub proof fn law_uniform(m: MessageBlockView)
    ensures
        m.uniform() <==> {
            ||| {
                &&& m.created_at is Limited
                &&& m.block_meta is Limited
                &&& forall|i: int| 0 <= i < m.accounts.len() ==> (#[trigger] m.accounts[i]) is Limited
                &&& forall|i: int|
                    0 <= i < m.transactions.len() ==> (#[trigger] m.transactions[i]) is Limited
                &&& forall|i: int| 0 <= i < m.entries.len() ==> (#[trigger] m.entries[i]) is Limited
            }
            ||| {
                &&& m.created_at is Prost
                &&& m.block_meta is Prost
                &&& forall|i: int| 0 <= i < m.accounts.len() ==> (#[trigger] m.accounts[i]) is Prost
                &&& forall|i: int|
                    0 <= i < m.transactions.len() ==> (#[trigger] m.transactions[i]) is Prost
                &&& forall|i: int| 0 <= i < m.entries.len() ==> (#[trigger] m.entries[i]) is Prost
            }
        },
{
    if m.uniform() {
        assert forall|i: int| 0 <= i < m.accounts.len() implies (m.created_at is Limited <==> (
        #[trigger] m.accounts[i]) is Limited) by {
            assert(m.accounts[i].encoding() == m.encoding());
        }
        assert forall|i: int| 0 <= i < m.transactions.len() implies (m.created_at is Limited <==> (
        #[trigger] m.transactions[i]) is Limited) by {
            assert(m.transactions[i].encoding() == m.encoding());
        }
        assert forall|i: int| 0 <= i < m.entries.len() implies (m.created_at is Limited <==> (
        #[trigger] m.entries[i]) is Limited) by {
            assert(m.entries[i].encoding() == m.encoding());
        }
    }
}

/// A message is about the slot of what it holds, and was made when that was, by the parser that made it.
pub proof fn law_message(m: MessageView)
    ensures
        match m {
            MessageView::Slot(MessageSlotView::Limited { slot, created_at, .. }) => m.slot() == slot
                && m.created_at() == MessageBlockCreatedAt::Limited(created_at),
            MessageView::Slot(MessageSlotView::Prost { slot, created_at, .. }) => m.slot() == slot
                && m.created_at() == MessageBlockCreatedAt::Prost(created_at),
            MessageView::Account(MessageAccountView::Limited { fields, created_at, .. }) => m.slot()
                == fields.slot && m.created_at() == MessageBlockCreatedAt::Limited(created_at),
            MessageView::Account(MessageAccountView::Prost { slot, created_at, .. }) => m.slot()
                == slot && m.created_at() == MessageBlockCreatedAt::Prost(created_at),
            MessageView::Transaction(MessageTransactionView::Limited { slot, created_at, .. }) => {
                m.slot() == slot && m.created_at() == MessageBlockCreatedAt::Limited(created_at)
            },
            MessageView::Transaction(MessageTransactionView::Prost { slot, created_at, .. }) => {
                m.slot() == slot && m.created_at() == MessageBlockCreatedAt::Prost(created_at)
            },
            MessageView::Entry(MessageEntryView::Limited { slot, created_at, .. }) => m.slot()
                == slot && m.created_at() == MessageBlockCreatedAt::Limited(created_at),
            MessageView::Entry(MessageEntryView::Prost { entry, created_at, .. }) => m.slot()
                == entry.slot && m.created_at() == MessageBlockCreatedAt::Prost(created_at),
            MessageView::BlockMeta(
                MessageBlockMetaView::Limited { block_meta, created_at, .. },
            ) => m.slot() == block_meta.slot && m.created_at() == MessageBlockCreatedAt::Limited(
                created_at,
            ),
            MessageView::BlockMeta(MessageBlockMetaView::Prost { block_meta, created_at, .. }) => {
                m.slot() == block_meta.slot && m.created_at() == MessageBlockCreatedAt::Prost(
                    created_at,
                )
            },
            MessageView::Block(b) => m.slot() == b.block_meta.block_meta().slot && m.created_at()
                == b.created_at,
        },
{
}

/// What a message of either parser says of a transaction is what it holds.
pub proof fn law_transaction_says(m: MessageTransactionView)
    ensures
        m.failed() <==> m.error() is Some,
        m.keys() == m.account_keys(),
        match m {
            MessageTransactionView::Limited {
                signature,
                error,
                account_keys,
                is_vote,
                index,
                buffer,
                ..
            } => {
                &&& m.signed() <==> signature is Some
                &&& signature matches Some(x) ==> m.signature() == buffer.subrange(
                    x as int,
                    x as int + 64,
                )
                &&& m.error() == error
                &&& m.account_keys() == account_keys
                &&& m.vote() == is_vote
                &&& m.index() == index
                &&& m.encoding() == MessageParserEncoding::Limited
            },
            MessageTransactionView::Prost { error, account_keys, transaction, .. } => {
                &&& m.signed()
                &&& m.signature() == transaction.signature
                &&& m.error() == error
                &&& m.account_keys() == account_keys
                &&& m.vote() == transaction.is_vote
                &&& m.index() == transaction.index
                &&& m.encoding() == MessageParserEncoding::Prost
            },
        },
{
}

/// What an account message costs to keep: the bytes of its update and what is kept beside them, or what it
/// was made with.
pub proof fn law_account_size(m: MessageAccountView)
    ensures
        match m {
            MessageAccountView::Limited { buffer, .. } => m.size() == buffer.len() + 150,
            MessageAccountView::Prost { size, .. } => m.size() == size,
        },
{
}

/// What the messages of updates that are decoded in full cost to keep: as much as their updates are long,
/// and what is kept of accounts and transactions beside that.
pub proof fn law_full_sizes(
    a: AccountView,
    t: TransactionInfoView,
    slot: u64,
    created_at: Timestamp,
    len: nat,
)
    requires
        len + 84 <= usize::MAX,
        a.account is Some,
    ensures
        parser::account_view_message(a, created_at, len) matches Ok(MessageView::Account(m))
            ==> m.size() == len + 84,
        parser::full_transaction(t, slot, created_at, len) matches Ok(m) ==> m.base_size() == len
            + 64,
{
}

/// An envelope without a time, and one without an update, are refused, and what is missing is told.
pub proof fn law_missing(tag: u32, payload: Seq<u8>, created_at: Timestamp)
    requires
        2 <= tag <= 10,
        payload.len() <= u64::MAX,
    ensures
        message::limited_message(wire::bytes_field(tag, payload)) == Err::<
            MessageView,
            ParseFailure,
        >(ParseFailure::FieldNotDefined("created_at")),
        message::limited_message(Seq::empty()) == Err::<MessageView, ParseFailure>(
            ParseFailure::FieldNotDefined("created_at"),
        ),
        message::limited_message(wire::bytes_field(11, codec::timestamp_bytes(created_at))) == Err::<
            MessageView,
            ParseFailure,
        >(ParseFailure::FieldNotDefined("update_oneof")),
{
    let m0 = SubscribeUpdateLimitedDecode::empty();
    taken::law_envelope_field(m0, 0, tag, payload);
    round_trip::lemma_leads_all::<SubscribeUpdateLimitedDecode>(
        m0,
        wire::bytes_field(tag, payload),
        UpdateModel { update: Some((tag, taken::place(0, tag, payload))), ..m0 },
    );
    round_trip::lemma_leads_nowhere::<SubscribeUpdateLimitedDecode>(m0, 0);
    round_trip::lemma_leads_all::<SubscribeUpdateLimitedDecode>(m0, Seq::empty(), m0);
    let m1 = UpdateModel { created_at: Some(created_at), ..m0 };
    let w = wire::delimited(codec::timestamp_bytes(created_at));
    let k = wire::key_bytes(11, WireType::LengthDelimited);
    let s = wire::bytes_field(11, codec::timestamp_bytes(created_at));
    assert(s =~= k + w);
    assert forall|t: Seq<u8>|
        #[trigger] SubscribeUpdateLimitedDecode::step(
            m0,
            11,
            WireType::LengthDelimited,
            w + t,
            0 + k.len(),
        ) == Ok::<(UpdateModel, nat), Failure>((m1, w.len())) by {
        round_trip::lemma_timestamp(created_at, t);
    }
    round_trip::lemma_leads_field::<SubscribeUpdateLimitedDecode>(
        m0,
        0,
        11,
        WireType::LengthDelimited,
        w,
        m1,
    );
    round_trip::lemma_leads_all::<SubscribeUpdateLimitedDecode>(m0, s, m1);
}

/// What is said of why bytes cannot be decoded tells the reasons apart.
pub proof fn law_decode_texts()
    ensures
        DecodeErrorKind::InvalidVarint.text() == "invalid varint"@,
        DecodeErrorKind::InvalidKey.text() == "invalid key"@,
        DecodeErrorKind::UnexpectedWireType.text() == "invalid wire type"@,
        DecodeErrorKind::InvalidField.text() == "invalid field"@,
        DecodeErrorKind::BufferUnderflow.text() == "buffer underflow"@,
        DecodeErrorKind::DelimitedLengthExceeded.text() == "delimited length exceeded"@,
        DecodeErrorKind::InvalidPubkeyLength.text() == "invalid pubkey length"@,
        DecodeErrorKind::InvalidSignatureLength.text() == "invalid signature length"@,
        DecodeErrorKind::MergeNotSupported.text() == "merge is not supported"@,
        DecodeErrorKind::InvalidTimestamp.text() == "invalid timestamp"@,
        DecodeErrorKind::InvalidMessage.text() == "invalid message"@,
{
}

} // verus!
